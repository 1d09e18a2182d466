//! What the scan finds, set against where the query really occurs.
//!
//! Every completion of the query by the scan is an occurrence. The converse
//! needs an idle cursor at the first byte of the occurrence: in `aab` the
//! query `ab` occurs, but its first byte is spent on the mismatch after the
//! leading `a`.

use vstd::prelude::*;
use crate::matcher::{
    byte_eq, completes, finished, lemma_scan_concat, matched_lines, next_cursor,
    scan, shown, start, step, ScanState, CARRIAGE_RETURN, NEWLINE,
};

verus! {

/// Whether `query` stands in `hay` from position `at` on.
pub open spec fn occurs_at(hay: Seq<u8>, query: Seq<u8>, ignore_case: bool, at: int) -> bool {
    &&& 0 <= at
    &&& at + query.len() <= hay.len()
    &&& forall|k: int|
        0 <= k < query.len() ==> byte_eq(#[trigger] query[k], hay[at + k], ignore_case)
}

/// Whether `query` stands somewhere in `hay`, as a run of adjacent bytes.
pub open spec fn occurs(hay: Seq<u8>, query: Seq<u8>, ignore_case: bool) -> bool {
    exists|at: int| occurs_at(hay, query, ignore_case, at)
}

/// The cursor after `bytes`, counted from the start of a stream.
pub open spec fn cursor_after(query: Seq<u8>, ignore_case: bool, bytes: Seq<u8>) -> nat
    decreases bytes.len(),
{
    if bytes.len() == 0 {
        0
    } else {
        next_cursor(
            query,
            ignore_case,
            cursor_after(query, ignore_case, bytes.drop_last()),
            bytes.last(),
        )
    }
}

/// Whether the scan of `bytes` completes the query on the byte at `i`.
pub open spec fn completed_at(query: Seq<u8>, ignore_case: bool, bytes: Seq<u8>, i: int) -> bool {
    &&& 0 <= i < bytes.len()
    &&& completes(query, ignore_case, cursor_after(query, ignore_case, bytes.take(i)), bytes[i])
}

/// Whether the scan of `bytes` completes the query anywhere.
pub open spec fn found_in(query: Seq<u8>, ignore_case: bool, bytes: Seq<u8>) -> bool {
    exists|i: int| completed_at(query, ignore_case, bytes, i)
}

/// Whether the query occurs at a position that the scan reaches with an idle
/// cursor.
pub open spec fn occurs_on_idle_cursor(hay: Seq<u8>, query: Seq<u8>, ignore_case: bool) -> bool {
    exists|at: int| #[trigger]
        occurs_at(hay, query, ignore_case, at) && cursor_after(query, ignore_case, hay.take(at))
            == 0
}

/// A line as it is reported: each carriage return written as a backslash
/// and an `r`.
pub open spec fn escaped(line: Seq<u8>) -> Seq<u8>
    decreases line.len(),
{
    if line.len() == 0 {
        Seq::empty()
    } else {
        escaped(line.drop_last()) + shown(line.last())
    }
}

/// A line without a carriage return is reported as it is.
pub proof fn lemma_escaped_without_returns(line: Seq<u8>)
    requires
        forall|i: int| 0 <= i < line.len() ==> #[trigger] line[i] != CARRIAGE_RETURN,
    ensures
        escaped(line) == line,
    decreases line.len(),
{
    if line.len() > 0 {
        let init = line.drop_last();
        assert forall|i: int| 0 <= i < init.len() implies #[trigger] init[i] != CARRIAGE_RETURN by {
            assert(init[i] == line[i]);
        }
        lemma_escaped_without_returns(init);
        assert(line.last() == line[line.len() - 1]);
        assert(init + seq![line.last()] =~= line);
    }
}

/// A cursor at `c` has the first `c` bytes of the query right behind it, and
/// was idle where they begin.
proof fn lemma_cursor_trails_partial_match(query: Seq<u8>, ignore_case: bool, bytes: Seq<u8>)
    ensures
        ({
            let c = cursor_after(query, ignore_case, bytes);
            &&& c <= bytes.len()
            &&& c == 0 || c < query.len()
            &&& occurs_at(bytes, query.take(c as int), ignore_case, bytes.len() - c)
            &&& cursor_after(query, ignore_case, bytes.take(bytes.len() - c)) == 0
        }),
    decreases bytes.len(),
{
    let c = cursor_after(query, ignore_case, bytes);
    if bytes.len() == 0 {
        assert(bytes.take(0) =~= bytes);
    } else {
        let init = bytes.drop_last();
        let before = cursor_after(query, ignore_case, init);
        lemma_cursor_trails_partial_match(query, ignore_case, init);
        if c == 0 {
            assert(bytes.take(bytes.len() as int) =~= bytes);
        } else {
            assert(c == before + 1);
            assert(bytes.take(bytes.len() - c) =~= init.take(init.len() - before));
            assert forall|k: int| 0 <= k < c implies byte_eq(
                #[trigger] query.take(c as int)[k],
                bytes[bytes.len() - c + k],
                ignore_case,
            ) by {
                if k < before {
                    assert(query.take(before as int)[k] == query[k]);
                    assert(init[init.len() - before + k] == bytes[bytes.len() - c + k]);
                }
            }
        }
    }
}

/// Whatever the scan completes is an occurrence of the query, and one that
/// begins on an idle cursor.
pub proof fn lemma_completion_is_occurrence(
    query: Seq<u8>,
    ignore_case: bool,
    bytes: Seq<u8>,
    i: int,
)
    requires
        completed_at(query, ignore_case, bytes, i),
    ensures
        occurs_at(bytes, query, ignore_case, i + 1 - query.len()),
        cursor_after(query, ignore_case, bytes.take(i + 1 - query.len())) == 0,
{
    let seen = bytes.take(i);
    let c = cursor_after(query, ignore_case, seen);
    let at = i + 1 - query.len();
    lemma_cursor_trails_partial_match(query, ignore_case, seen);
    assert(seen.take(seen.len() - c) =~= bytes.take(at));
    assert forall|k: int| 0 <= k < query.len() implies byte_eq(
        #[trigger] query[k],
        bytes[at + k],
        ignore_case,
    ) by {
        if k < c {
            assert(query.take(c as int)[k] == query[k]);
            assert(seen[seen.len() - c + k] == bytes[at + k]);
        }
    }
}

/// While the scan is inside an occurrence that it entered on an idle cursor,
/// the cursor counts the bytes of it that are behind.
proof fn lemma_cursor_inside_occurrence(
    query: Seq<u8>,
    ignore_case: bool,
    bytes: Seq<u8>,
    at: int,
    k: int,
)
    requires
        occurs_at(bytes, query, ignore_case, at),
        cursor_after(query, ignore_case, bytes.take(at)) == 0,
        0 <= k < query.len(),
    ensures
        cursor_after(query, ignore_case, bytes.take(at + k)) == k,
    decreases k,
{
    if k > 0 {
        lemma_cursor_inside_occurrence(query, ignore_case, bytes, at, k - 1);
        let seen = bytes.take(at + k);
        assert(seen.drop_last() =~= bytes.take(at + k - 1));
        assert(seen.last() == bytes[at + k - 1]);
        assert(byte_eq(query[k - 1], bytes[at + (k - 1)], ignore_case));
    }
}

/// An occurrence that begins on an idle cursor is completed by the scan.
pub proof fn lemma_idle_occurrence_is_completed(
    query: Seq<u8>,
    ignore_case: bool,
    bytes: Seq<u8>,
    at: int,
)
    requires
        query.len() > 0,
        occurs_at(bytes, query, ignore_case, at),
        cursor_after(query, ignore_case, bytes.take(at)) == 0,
    ensures
        completed_at(query, ignore_case, bytes, at + query.len() - 1),
{
    let last = query.len() - 1;
    lemma_cursor_inside_occurrence(query, ignore_case, bytes, at, last);
    assert(byte_eq(query[last], bytes[at + last], ignore_case));
}

/// The scan finds the query in `bytes` exactly when it occurs there at a
/// position that is reached with an idle cursor.
pub proof fn lemma_found_iff_occurs_on_idle_cursor(
    query: Seq<u8>,
    ignore_case: bool,
    bytes: Seq<u8>,
)
    requires
        query.len() > 0,
    ensures
        found_in(query, ignore_case, bytes) <==> occurs_on_idle_cursor(bytes, query, ignore_case),
        found_in(query, ignore_case, bytes) ==> occurs(bytes, query, ignore_case),
{
    if found_in(query, ignore_case, bytes) {
        let i = choose|i: int| completed_at(query, ignore_case, bytes, i);
        lemma_completion_is_occurrence(query, ignore_case, bytes, i);
        assert(occurs_at(bytes, query, ignore_case, i + 1 - query.len()));
    }
    if occurs_on_idle_cursor(bytes, query, ignore_case) {
        let at = choose|at: int| #[trigger]
            occurs_at(bytes, query, ignore_case, at) && cursor_after(
                query,
                ignore_case,
                bytes.take(at),
            ) == 0;
        lemma_idle_occurrence_is_completed(query, ignore_case, bytes, at);
    }
}

/// Whether no byte is a line feed.
pub open spec fn newline_free(bytes: Seq<u8>) -> bool {
    forall|i: int| 0 <= i < bytes.len() ==> #[trigger] bytes[i] != NEWLINE
}

/// One more byte adds at most its own completion to what was found.
proof fn lemma_found_in_grows(query: Seq<u8>, ignore_case: bool, bytes: Seq<u8>)
    requires
        bytes.len() > 0,
    ensures
        found_in(query, ignore_case, bytes) <==> found_in(query, ignore_case, bytes.drop_last())
            || completes(
            query,
            ignore_case,
            cursor_after(query, ignore_case, bytes.drop_last()),
            bytes.last(),
        ),
{
    let init = bytes.drop_last();
    let last = bytes.len() - 1;
    assert(bytes.take(last) =~= init);
    if found_in(query, ignore_case, bytes) {
        let i = choose|i: int| completed_at(query, ignore_case, bytes, i);
        if i < last {
            assert(bytes.take(i) =~= init.take(i));
            assert(completed_at(query, ignore_case, init, i));
        }
    }
    if found_in(query, ignore_case, init) {
        let i = choose|i: int| completed_at(query, ignore_case, init, i);
        assert(bytes.take(i) =~= init.take(i));
        assert(completed_at(query, ignore_case, bytes, i));
    }
    if completes(query, ignore_case, cursor_after(query, ignore_case, init), bytes.last()) {
        assert(completed_at(query, ignore_case, bytes, last));
    }
}

/// Within one line the scan reports nothing yet: it holds the line, escaped,
/// and knows whether the query was completed on it.
pub proof fn lemma_scan_of_line(query: Seq<u8>, ignore_case: bool, line: Seq<u8>)
    requires
        newline_free(line),
    ensures
        scan(query, ignore_case, start(), line) == (ScanState {
            cursor: cursor_after(query, ignore_case, line),
            pending: found_in(query, ignore_case, line),
            line: escaped(line),
            findings: Seq::empty(),
        }),
    decreases line.len(),
{
    if line.len() == 0 {
        assert(!found_in(query, ignore_case, line));
    } else {
        let init = line.drop_last();
        assert(newline_free(init)) by {
            assert forall|i: int| 0 <= i < init.len() implies #[trigger] init[i] != NEWLINE by {
                assert(init[i] == line[i]);
            }
        }
        assert(line.last() == line[line.len() - 1]);
        lemma_scan_of_line(query, ignore_case, init);
        lemma_found_in_grows(query, ignore_case, line);
    }
}

/// What a stream of one line reports: the line, escaped, if the query occurs
/// in it at a position that the scan reaches with an idle cursor, and
/// nothing otherwise.
pub proof fn lemma_line_reported_iff_found(query: Seq<u8>, ignore_case: bool, line: Seq<u8>)
    requires
        query.len() > 0,
        newline_free(line),
    ensures
        matched_lines(line, query, ignore_case) == if occurs_on_idle_cursor(
            line,
            query,
            ignore_case,
        ) {
            seq![escaped(line)]
        } else {
            Seq::<Seq<u8>>::empty()
        },
{
    lemma_scan_of_line(query, ignore_case, line);
    lemma_found_iff_occurs_on_idle_cursor(query, ignore_case, line);
    assert(Seq::<Seq<u8>>::empty().push(escaped(line)) =~= seq![escaped(line)]);
}

/// A line is among the findings exactly when the query occurs in it. The
/// scan does not backtrack, so this is claimed only where an occurrence, if
/// there is one, begins on an idle cursor.
pub proof fn lemma_line_reported_iff_query_occurs(
    query: Seq<u8>,
    ignore_case: bool,
    line: Seq<u8>,
)
    requires
        query.len() > 0,
        newline_free(line),
        occurs(line, query, ignore_case) ==> occurs_on_idle_cursor(line, query, ignore_case),
    ensures
        matched_lines(line, query, ignore_case) == if occurs(line, query, ignore_case) {
            seq![escaped(line)]
        } else {
            Seq::<Seq<u8>>::empty()
        },
{
    lemma_line_reported_iff_found(query, ignore_case, line);
    if occurs_on_idle_cursor(line, query, ignore_case) {
        let at = choose|at: int| #[trigger]
            occurs_at(line, query, ignore_case, at) && cursor_after(
                query,
                ignore_case,
                line.take(at),
            ) == 0;
        assert(occurs_at(line, query, ignore_case, at));
    }
}

/// Findings that were there before a scan stay in front of what it adds.
proof fn lemma_scan_after_findings(
    query: Seq<u8>,
    ignore_case: bool,
    s: ScanState,
    earlier: Seq<Seq<u8>>,
    bytes: Seq<u8>,
)
    ensures
        scan(
            query,
            ignore_case,
            ScanState { findings: earlier + s.findings, ..s },
            bytes,
        ) == (ScanState {
            findings: earlier + scan(query, ignore_case, s, bytes).findings,
            ..scan(query, ignore_case, s, bytes)
        }),
    decreases bytes.len(),
{
    if bytes.len() > 0 {
        lemma_scan_after_findings(query, ignore_case, s, earlier, bytes.drop_last());
        let t = scan(query, ignore_case, s, bytes.drop_last());
        assert((earlier + t.findings).push(t.line) =~= earlier + t.findings.push(t.line));
    }
}

/// A line feed closes a line for good when the query holds no line feed and
/// the line ends with a completed match or with an idle cursor: what follows
/// is searched as a stream of its own.
pub proof fn lemma_lines_are_searched_apart(
    query: Seq<u8>,
    ignore_case: bool,
    line: Seq<u8>,
    rest: Seq<u8>,
)
    requires
        newline_free(query),
        newline_free(line),
        found_in(query, ignore_case, line) || cursor_after(query, ignore_case, line) == 0,
    ensures
        matched_lines(line.push(NEWLINE) + rest, query, ignore_case) == matched_lines(
            line,
            query,
            ignore_case,
        ) + matched_lines(rest, query, ignore_case),
{
    let held = scan(query, ignore_case, start(), line);
    let closed = scan(query, ignore_case, start(), line.push(NEWLINE));
    let found = matched_lines(line, query, ignore_case);
    lemma_scan_of_line(query, ignore_case, line);
    assert(line.push(NEWLINE).drop_last() =~= line);
    assert(closed == step(query, ignore_case, held, NEWLINE));
    if held.cursor < query.len() {
        assert(query[held.cursor as int] != NEWLINE);
    }
    assert(closed == ScanState { findings: found, ..start() });
    assert(found =~= found + start().findings);
    lemma_scan_concat(query, ignore_case, start(), line.push(NEWLINE), rest);
    lemma_scan_after_findings(query, ignore_case, start(), found, rest);
    let tail = scan(query, ignore_case, start(), rest);
    assert((found + tail.findings).push(tail.line) =~= found + tail.findings.push(tail.line));
}

/// Before any byte that could begin the query the cursor is idle.
proof fn lemma_idle_before_first_candidate(
    query: Seq<u8>,
    ignore_case: bool,
    bytes: Seq<u8>,
    upto: int,
)
    requires
        query.len() > 0,
        0 <= upto <= bytes.len(),
        forall|j: int| 0 <= j < upto ==> !byte_eq(query[0], #[trigger] bytes[j], ignore_case),
    ensures
        cursor_after(query, ignore_case, bytes.take(upto)) == 0,
    decreases upto,
{
    if upto > 0 {
        lemma_idle_before_first_candidate(query, ignore_case, bytes, upto - 1);
        assert(bytes.take(upto).drop_last() =~= bytes.take(upto - 1));
        assert(bytes.take(upto).last() == bytes[upto - 1]);
    }
}

/// An occurrence is found if the first byte of the query does not come
/// anywhere before it in the line.
pub proof fn lemma_first_candidate_is_found(
    query: Seq<u8>,
    ignore_case: bool,
    line: Seq<u8>,
    at: int,
)
    requires
        query.len() > 0,
        occurs_at(line, query, ignore_case, at),
        forall|j: int| 0 <= j < at ==> !byte_eq(query[0], #[trigger] line[j], ignore_case),
    ensures
        occurs_on_idle_cursor(line, query, ignore_case),
        found_in(query, ignore_case, line),
{
    lemma_idle_before_first_candidate(query, ignore_case, line, at);
    assert(occurs_at(line, query, ignore_case, at) && cursor_after(
        query,
        ignore_case,
        line.take(at),
    ) == 0);
    lemma_found_iff_occurs_on_idle_cursor(query, ignore_case, line);
}

/// The stream in which each of the lines is followed by a line feed.
pub open spec fn stream_of(lines: Seq<Seq<u8>>) -> Seq<u8>
    decreases lines.len(),
{
    if lines.len() == 0 {
        Seq::empty()
    } else {
        lines.first().push(NEWLINE) + stream_of(lines.drop_first())
    }
}

/// The lines in which the query occurs, in order, each as it is reported.
pub open spec fn lines_with(lines: Seq<Seq<u8>>, query: Seq<u8>, ignore_case: bool) -> Seq<Seq<u8>>
    decreases lines.len(),
{
    if lines.len() == 0 {
        Seq::empty()
    } else if occurs(lines.first(), query, ignore_case) {
        seq![escaped(lines.first())] + lines_with(lines.drop_first(), query, ignore_case)
    } else {
        lines_with(lines.drop_first(), query, ignore_case)
    }
}

/// Whether the scan deals with a line as a plain look for the query would:
/// an occurrence, if there is one, begins on an idle cursor, and a line
/// without one does not end inside a partial match.
pub open spec fn plainly_scanned(line: Seq<u8>, query: Seq<u8>, ignore_case: bool) -> bool {
    &&& newline_free(line)
    &&& occurs(line, query, ignore_case) ==> occurs_on_idle_cursor(line, query, ignore_case)
    &&& !occurs(line, query, ignore_case) ==> cursor_after(query, ignore_case, line) == 0
}

/// The findings of a stream are its lines in which the query occurs, in
/// their order, where the query holds no line feed and every line is one that
/// the scan deals with plainly. The last line may lack its line feed.
pub proof fn lemma_findings_are_the_lines_with_the_query(
    query: Seq<u8>,
    ignore_case: bool,
    lines: Seq<Seq<u8>>,
    last: Seq<u8>,
)
    requires
        query.len() > 0,
        newline_free(query),
        forall|i: int| 0 <= i < lines.len() ==> plainly_scanned(#[trigger] lines[i], query, ignore_case),
        newline_free(last),
        occurs(last, query, ignore_case) ==> occurs_on_idle_cursor(last, query, ignore_case),
    ensures
        matched_lines(stream_of(lines) + last, query, ignore_case) == lines_with(
            lines,
            query,
            ignore_case,
        ) + lines_with(seq![last], query, ignore_case),
    decreases lines.len(),
{
    if lines.len() == 0 {
        assert(stream_of(lines) + last =~= last);
        lemma_line_reported_iff_query_occurs(query, ignore_case, last);
        assert(seq![last].first() == last);
        assert(lines_with(seq![last].drop_first(), query, ignore_case) =~= Seq::empty());
        assert(lines_with(seq![last], query, ignore_case) =~= if occurs(last, query, ignore_case) {
            seq![escaped(last)]
        } else {
            Seq::<Seq<u8>>::empty()
        });
        assert(lines_with(lines, query, ignore_case) + lines_with(seq![last], query, ignore_case)
            =~= lines_with(seq![last], query, ignore_case));
    } else {
        let line = lines.first();
        let rest = lines.drop_first();
        assert(plainly_scanned(line, query, ignore_case));
        assert forall|i: int| 0 <= i < rest.len() implies plainly_scanned(
            #[trigger] rest[i],
            query,
            ignore_case,
        ) by {
            assert(rest[i] == lines[i + 1]);
        }
        lemma_findings_are_the_lines_with_the_query(query, ignore_case, rest, last);
        lemma_found_iff_occurs_on_idle_cursor(query, ignore_case, line);
        lemma_lines_are_searched_apart(query, ignore_case, line, stream_of(rest) + last);
        lemma_line_reported_iff_query_occurs(query, ignore_case, line);
        assert(stream_of(lines) + last =~= line.push(NEWLINE) + (stream_of(rest) + last));
        let tail = lines_with(rest, query, ignore_case) + lines_with(
            seq![last],
            query,
            ignore_case,
        );
        assert(matched_lines(line, query, ignore_case) + tail =~= lines_with(
            lines,
            query,
            ignore_case,
        ) + lines_with(seq![last], query, ignore_case));
    }
}

} // verus!
