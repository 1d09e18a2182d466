//! The scan itself: one pass over a byte stream that follows a literal query
//! with a cursor and assembles the line around each occurrence.
//!
//! The scan never backtracks. A byte that does not continue the partial match
//! sends the cursor back to the start of the query and is not looked at again,
//! so an occurrence is seen only where it starts on an idle cursor.

use vstd::prelude::*;
use vstd::utf8::*;
use crate::error::MinigrepError;

verus! {

/// The line feed, which ends a line.
pub const NEWLINE: u8 = 10;

/// The carriage return, which is shown as a backslash and an `r`.
pub const CARRIAGE_RETURN: u8 = 13;

/// The backslash that starts an escape in a reported line.
pub const BACKSLASH: u8 = 92;

/// The letter `n`, which stands for a line feed behind a backslash.
pub const LETTER_N: u8 = 110;

/// The letter `r`, which stands for a carriage return behind a backslash.
pub const LETTER_R: u8 = 114;

/// The first of the ASCII capitals.
pub const CAPITAL_A: u8 = 65;

/// The last of the ASCII capitals.
pub const CAPITAL_Z: u8 = 90;

/// How far a small letter lies above its capital.
pub const CASE_OFFSET: u8 = 32;

/// The lower-case form of an ASCII letter; every other byte is left as it is.
pub open spec fn ascii_lower(b: u8) -> u8 {
    if CAPITAL_A <= b <= CAPITAL_Z {
        (b + CASE_OFFSET) as u8
    } else {
        b
    }
}

/// Whether the stream byte `b` counts as the query byte `q`.
pub open spec fn byte_eq(q: u8, b: u8, ignore_case: bool) -> bool {
    if ignore_case {
        ascii_lower(q) == ascii_lower(b)
    } else {
        q == b
    }
}

/// How a carriage return is shown.
pub open spec fn escaped_return() -> Seq<u8> {
    seq![BACKSLASH, LETTER_R]
}

/// How a line feed inside a partial match is shown.
pub open spec fn escaped_newline() -> Seq<u8> {
    seq![BACKSLASH, LETTER_N]
}

/// What the scan remembers between two bytes.
pub struct ScanState {
    /// How many leading bytes of the query the latest bytes have matched.
    pub cursor: nat,
    /// Whether the query was completed on the line being assembled.
    pub pending: bool,
    /// The line being assembled, escapes applied.
    pub line: Seq<u8>,
    /// The lines reported so far, in stream order.
    pub findings: Seq<Seq<u8>>,
}

/// The state before the first byte.
pub open spec fn start() -> ScanState {
    ScanState { cursor: 0, pending: false, line: Seq::empty(), findings: Seq::empty() }
}

/// Whether `b` is the query byte under the cursor.
pub open spec fn continues(query: Seq<u8>, ignore_case: bool, cursor: nat, b: u8) -> bool {
    cursor < query.len() && byte_eq(query[cursor as int], b, ignore_case)
}

/// Whether `b` is the last byte of an occurrence that the cursor has followed.
pub open spec fn completes(query: Seq<u8>, ignore_case: bool, cursor: nat, b: u8) -> bool {
    continues(query, ignore_case, cursor, b) && cursor + 1 == query.len()
}

/// The cursor after `b`: one further on a match that is not yet complete, and
/// back at the start otherwise.
pub open spec fn next_cursor(query: Seq<u8>, ignore_case: bool, cursor: nat, b: u8) -> nat {
    if continues(query, ignore_case, cursor, b) && cursor + 1 < query.len() {
        cursor + 1
    } else {
        0
    }
}

/// A byte as it is written into the line.
pub open spec fn shown(b: u8) -> Seq<u8> {
    if b == CARRIAGE_RETURN {
        escaped_return()
    } else {
        seq![b]
    }
}

/// One byte of the scan. The byte is held against the query first, so a match
/// that it completes counts for the line it stands on. A line feed then
/// closes that line: it is reported if a match was completed on it, and the
/// buffer starts afresh. Only where no match was completed and a partial
/// match was under way before the line feed does the line go on, with the
/// line feed written as an escape.
pub open spec fn step(query: Seq<u8>, ignore_case: bool, s: ScanState, b: u8) -> ScanState {
    let cursor = next_cursor(query, ignore_case, s.cursor, b);
    let found = s.pending || completes(query, ignore_case, s.cursor, b);
    if b != NEWLINE {
        ScanState { cursor, pending: found, line: s.line + shown(b), findings: s.findings }
    } else if found {
        ScanState {
            cursor,
            pending: false,
            line: Seq::empty(),
            findings: s.findings.push(s.line),
        }
    } else if s.cursor > 0 {
        ScanState {
            cursor,
            pending: false,
            line: s.line + escaped_newline(),
            findings: s.findings,
        }
    } else {
        ScanState { cursor, pending: false, line: Seq::empty(), findings: s.findings }
    }
}

/// The state after all of `bytes`, taken in order from `s`.
pub open spec fn scan(query: Seq<u8>, ignore_case: bool, s: ScanState, bytes: Seq<u8>) -> ScanState
    decreases bytes.len(),
{
    if bytes.len() == 0 {
        s
    } else {
        step(query, ignore_case, scan(query, ignore_case, s, bytes.drop_last()), bytes.last())
    }
}

/// The findings once the stream has ended: a last line without a line feed
/// is reported too if the query was completed on it.
pub open spec fn finished(s: ScanState) -> Seq<Seq<u8>> {
    if s.pending {
        s.findings.push(s.line)
    } else {
        s.findings
    }
}

/// The lines that a search of `stream` for `query` reports, as bytes.
pub open spec fn matched_lines(stream: Seq<u8>, query: Seq<u8>, ignore_case: bool) -> Seq<Seq<u8>> {
    finished(scan(query, ignore_case, start(), stream))
}

/// Whether every line is well-formed UTF-8, so that it can be reported as text.
pub open spec fn all_text(lines: Seq<Seq<u8>>) -> bool {
    forall|i: int| 0 <= i < lines.len() ==> valid_utf8(#[trigger] lines[i])
}

/// The text of each line.
pub open spec fn texts(lines: Seq<Seq<u8>>) -> Seq<Seq<char>> {
    Seq::new(lines.len(), |i: int| decode_utf8(lines[i]))
}

/// The UTF-8 bytes of each string.
pub open spec fn utf8_lines(texts: Seq<String>) -> Seq<Seq<u8>> {
    Seq::new(texts.len(), |i: int| encode_utf8(texts[i]@))
}

/// What feeding a piece of the stream gives: the state after the piece, or
/// nothing where a line that the piece closed cannot be reported as text.
pub open spec fn fed(query: Seq<u8>, ignore_case: bool, s: ScanState, chunk: Seq<u8>) -> Option<
    ScanState,
> {
    let after = scan(query, ignore_case, s, chunk);
    if all_text(after.findings) {
        Some(after)
    } else {
        None
    }
}

/// Folds an ASCII upper-case letter to lower case.
pub fn to_ascii_lower(b: u8) -> (r: u8)
    ensures
        r == ascii_lower(b),
{
    if CAPITAL_A <= b && b <= CAPITAL_Z {
        b + CASE_OFFSET
    } else {
        b
    }
}

/// Compares a query byte with a stream byte.
pub fn bytes_match(q: u8, b: u8, ignore_case: bool) -> (r: bool)
    ensures
        r == byte_eq(q, b, ignore_case),
{
    if ignore_case {
        to_ascii_lower(q) == to_ascii_lower(b)
    } else {
        q == b
    }
}

/// `core::str::from_utf8` accepts exactly the well-formed UTF-8 byte strings,
/// and the text it gives back is encoded by the very bytes it was given.
pub assume_specification[ core::str::from_utf8 ](v: &[u8]) -> (r: Result<
    &str,
    core::str::Utf8Error,
>)
    ensures
        r is Ok <==> valid_utf8(v@),
        r matches Ok(text) ==> encode_utf8(text@) == v@,
;

/// The cursor into the query, with the query it runs over.
struct Automaton {
    query: Vec<u8>,
    ignore_case: bool,
    cursor: usize,
}

impl Automaton {
    #[verifier::type_invariant]
    spec fn well_formed(self) -> bool {
        self.cursor < self.query@.len()
    }

    /// Holds `b` against the query byte under the cursor, moves the cursor,
    /// and says whether `b` completed an occurrence.
    fn advance(&mut self, b: u8) -> (completed: bool)
        ensures
            final(self).query == old(self).query,
            final(self).ignore_case == old(self).ignore_case,
            final(self).cursor == next_cursor(
                old(self).query@,
                old(self).ignore_case,
                old(self).cursor as nat,
                b,
            ),
            completed == completes(old(self).query@, old(self).ignore_case, old(self).cursor as nat, b),
    {
        proof {
            use_type_invariant(&*self);
        }
        if bytes_match(self.query[self.cursor], b, self.ignore_case) {
            if self.cursor == self.query.len() - 1 {
                self.cursor = 0;
                true
            } else {
                self.cursor = self.cursor + 1;
                false
            }
        } else {
            self.cursor = 0;
            false
        }
    }
}

/// A search in progress. It is fed the stream piece by piece, in pieces of any
/// size, and keeps only the line being assembled and the lines already found.
pub struct StreamMatcher {
    automaton: Automaton,
    pending: bool,
    line: Vec<u8>,
    findings: Vec<String>,
}

impl View for StreamMatcher {
    type V = ScanState;

    closed spec fn view(&self) -> ScanState {
        ScanState {
            cursor: self.automaton.cursor as nat,
            pending: self.pending,
            line: self.line@,
            findings: utf8_lines(self.findings@),
        }
    }
}

impl StreamMatcher {
    /// The bytes searched for.
    pub closed spec fn query(self) -> Seq<u8> {
        self.automaton.query@
    }

    /// Whether ASCII letters match in either case.
    pub closed spec fn ignore_case(self) -> bool {
        self.automaton.ignore_case
    }

    /// A matcher at the start of a stream. An empty query is refused: it would
    /// be found at every position.
    pub fn new(query: &str, ignore_case: bool) -> (r: Result<StreamMatcher, MinigrepError>)
        ensures
            r is Ok <==> query@.len() > 0,
            r matches Ok(m) ==> m.query() == encode_utf8(query@) && m.ignore_case() == ignore_case
                && m@ == start(),
            r matches Err(e) ==> e is QueryMissing,
    {
        if query.is_empty() {
            return Err(MinigrepError::QueryMissing);
        }
        let bytes = vstd::slice::slice_to_vec(query.as_bytes());
        assert(bytes@.len() > 0) by {
            assert(encode_scalar(query@[0] as u32).len() > 0);
        }
        let m = StreamMatcher {
            automaton: Automaton { query: bytes, ignore_case, cursor: 0 },
            pending: false,
            line: Vec::new(),
            findings: Vec::new(),
        };
        assert(m@.findings =~= Seq::<Seq<u8>>::empty());
        Ok(m)
    }

    /// Takes one byte. On a line that is to be reported and is not UTF-8 the
    /// matcher is of no further use.
    fn advance(&mut self, b: u8) -> (r: Result<(), core::str::Utf8Error>)
        ensures
            final(self).query() == old(self).query(),
            final(self).ignore_case() == old(self).ignore_case(),
            r is Ok <==> all_text(step(old(self).query(), old(self).ignore_case(), old(self)@, b).findings),
            r is Ok ==> final(self)@ == step(old(self).query(), old(self).ignore_case(), old(self)@, b),
    {
        proof {
            lemma_utf8_lines_are_text(self.findings@);
        }
        let ghost before = self@;
        let ghost after = step(self.query(), self.ignore_case(), before, b);
        let partial = self.automaton.cursor > 0;
        let found = self.automaton.advance(b) || self.pending;
        if b != NEWLINE {
            if b == CARRIAGE_RETURN {
                self.line.push(BACKSLASH);
                self.line.push(LETTER_R);
            } else {
                self.line.push(b);
            }
            assert(self.line@ =~= before.line + shown(b));
            self.pending = found;
        } else if found {
            match core::str::from_utf8(self.line.as_slice()) {
                Ok(text) => {
                    let owned = text.to_owned();
                    self.findings.push(owned);
                    assert(utf8_lines(self.findings@) =~= before.findings.push(before.line));
                },
                Err(e) => {
                    assert(!valid_utf8(after.findings[after.findings.len() - 1]));
                    return Err(e);
                },
            }
            self.pending = false;
            self.line.clear();
        } else if partial {
            self.line.push(BACKSLASH);
            self.line.push(LETTER_N);
            assert(self.line@ =~= before.line + escaped_newline());
        } else {
            self.line.clear();
        }
        proof {
            lemma_utf8_lines_are_text(self.findings@);
        }
        Ok(())
    }

    /// Scans the next piece of the stream. The matcher comes back ready for
    /// the piece after it, unless a line that has to be reported is not UTF-8.
    pub fn feed(self, chunk: &[u8]) -> (r: Result<StreamMatcher, MinigrepError>)
        ensures
            match fed(self.query(), self.ignore_case(), self@, chunk@) {
                Some(after) => r matches Ok(m) && m@ == after && m.query() == self.query()
                    && m.ignore_case() == self.ignore_case(),
                None => r matches Err(e) && e is Utf8Error,
            },
    {
        let ghost query = self.query();
        let ghost ignore_case = self.ignore_case();
        let ghost from = self@;
        let mut m = self;
        let mut i: usize = 0;
        while i < chunk.len()
            invariant
                i <= chunk.len(),
                query == self.query(),
                ignore_case == self.ignore_case(),
                from == self@,
                m.query() == query,
                m.ignore_case() == ignore_case,
                m@ == scan(query, ignore_case, from, chunk@.take(i as int)),
            decreases chunk.len() - i,
        {
            let ghost seen = chunk@.take(i as int + 1);
            assert(seen.drop_last() =~= chunk@.take(i as int));
            assert(seen.last() == chunk@[i as int]);
            let ghost partial = scan(query, ignore_case, from, seen);
            assert(partial == step(query, ignore_case, m@, chunk@[i as int]));
            match m.advance(chunk[i]) {
                Ok(()) => {},
                Err(e) => {
                    proof {
                        assert(chunk@ =~= seen + chunk@.skip(i as int + 1));
                        lemma_scan_concat(query, ignore_case, from, seen, chunk@.skip(i as int + 1));
                        let whole = scan(query, ignore_case, from, chunk@);
                        lemma_scan_keeps_findings(
                            query,
                            ignore_case,
                            partial,
                            chunk@.skip(i as int + 1),
                        );
                        if all_text(whole.findings) {
                            lemma_prefix_of_text_is_text(partial.findings, whole.findings);
                        }
                    }
                    return Err(MinigrepError::Utf8Error(e));
                },
            }
            i = i + 1;
        }
        proof {
            assert(chunk@.take(i as int) =~= chunk@);
            lemma_utf8_lines_are_text(m.findings@);
        }
        Ok(m)
    }

    /// Ends the stream and hands over the findings. A last line that has no
    /// line feed is reported if the query was completed on it.
    pub fn finish(self) -> (r: Result<Vec<String>, MinigrepError>)
        ensures
            r is Ok <==> all_text(finished(self@)),
            r matches Ok(found) ==> found.deep_view() == texts(finished(self@)),
            r matches Err(e) ==> e is Utf8Error,
    {
        proof {
            lemma_utf8_lines_are_text(self.findings@);
        }
        let ghost before = self@;
        let mut m = self;
        if m.pending {
            match core::str::from_utf8(m.line.as_slice()) {
                Ok(text) => {
                    let owned = text.to_owned();
                    m.findings.push(owned);
                    proof {
                        assert(utf8_lines(m.findings@) =~= before.findings.push(before.line));
                        lemma_utf8_lines_are_text(m.findings@);
                    }
                },
                Err(e) => {
                    assert(!valid_utf8(finished(before)[finished(before).len() - 1]));
                    return Err(MinigrepError::Utf8Error(e));
                },
            }
        }
        proof {
            lemma_texts_of_utf8_lines(m.findings);
        }
        Ok(m.findings)
    }
}

/// Strings are the text of their UTF-8 bytes.
proof fn lemma_texts_of_utf8_lines(found: Vec<String>)
    ensures
        found.deep_view() == texts(utf8_lines(found@)),
{
    assert forall|i: int| 0 <= i < found@.len() implies #[trigger] found.deep_view()[i] == texts(
        utf8_lines(found@),
    )[i] by {
        encode_utf8_decode_utf8(found@[i]@);
    }
    assert(found.deep_view() =~= texts(utf8_lines(found@)));
}

/// The bytes of a string are always UTF-8.
proof fn lemma_utf8_lines_are_text(texts: Seq<String>)
    ensures
        all_text(utf8_lines(texts)),
{
    assert forall|i: int| 0 <= i < utf8_lines(texts).len() implies valid_utf8(
        #[trigger] utf8_lines(texts)[i],
    ) by {
        encode_utf8_valid_utf8(texts[i]@);
    }
}

/// Where all of some lines are text, so are the first few of them.
proof fn lemma_prefix_of_text_is_text(first: Seq<Seq<u8>>, all: Seq<Seq<u8>>)
    requires
        first.is_prefix_of(all),
        all_text(all),
    ensures
        all_text(first),
{
    assert forall|i: int| 0 <= i < first.len() implies valid_utf8(#[trigger] first[i]) by {
        assert(first[i] == all[i]);
    }
}

/// Scanning two pieces one after the other is scanning them joined.
pub proof fn lemma_scan_concat(
    query: Seq<u8>,
    ignore_case: bool,
    s: ScanState,
    first: Seq<u8>,
    second: Seq<u8>,
)
    ensures
        scan(query, ignore_case, s, first + second) == scan(
            query,
            ignore_case,
            scan(query, ignore_case, s, first),
            second,
        ),
    decreases second.len(),
{
    if second.len() == 0 {
        assert(first + second =~= first);
    } else {
        assert((first + second).drop_last() =~= first + second.drop_last());
        lemma_scan_concat(query, ignore_case, s, first, second.drop_last());
    }
}

/// The stream that the pieces make up, one after the other.
pub open spec fn joined(pieces: Seq<Seq<u8>>) -> Seq<u8>
    decreases pieces.len(),
{
    if pieces.len() == 0 {
        Seq::empty()
    } else {
        joined(pieces.drop_last()) + pieces.last()
    }
}

/// What feeding the pieces one by one gives, each from the state that the
/// one before it left: nothing as soon as one of them gives nothing.
pub open spec fn fed_pieces(
    query: Seq<u8>,
    ignore_case: bool,
    s: ScanState,
    pieces: Seq<Seq<u8>>,
) -> Option<ScanState>
    decreases pieces.len(),
{
    if pieces.len() == 0 {
        Some(s)
    } else {
        match fed_pieces(query, ignore_case, s, pieces.drop_last()) {
            Some(sofar) => fed(query, ignore_case, sofar, pieces.last()),
            None => None,
        }
    }
}

/// However a stream is cut into pieces, of whatever sizes, feeding the pieces
/// in order gives what feeding the uncut stream gives: the same findings, the
/// same line in progress, the same cursor, or the same failure. A match that
/// lies across a cut is found like any other.
pub proof fn lemma_chunking_is_unobservable(
    query: Seq<u8>,
    ignore_case: bool,
    s: ScanState,
    pieces: Seq<Seq<u8>>,
)
    requires
        all_text(s.findings),
    ensures
        fed_pieces(query, ignore_case, s, pieces) == fed(query, ignore_case, s, joined(pieces)),
    decreases pieces.len(),
{
    if pieces.len() > 0 {
        let before = pieces.drop_last();
        lemma_chunking_is_unobservable(query, ignore_case, s, before);
        lemma_scan_concat(query, ignore_case, s, joined(before), pieces.last());
        let sofar = scan(query, ignore_case, s, joined(before));
        lemma_scan_keeps_findings(query, ignore_case, sofar, pieces.last());
        if all_text(scan(query, ignore_case, s, joined(pieces)).findings) {
            lemma_prefix_of_text_is_text(
                sofar.findings,
                scan(query, ignore_case, s, joined(pieces)).findings,
            );
        }
    }
}

/// The scan only ever adds to the findings.
pub proof fn lemma_scan_keeps_findings(
    query: Seq<u8>,
    ignore_case: bool,
    s: ScanState,
    bytes: Seq<u8>,
)
    ensures
        s.findings.is_prefix_of(scan(query, ignore_case, s, bytes).findings),
    decreases bytes.len(),
{
    if bytes.len() > 0 {
        lemma_scan_keeps_findings(query, ignore_case, s, bytes.drop_last());
    }
}

} // verus!
