//! What a search is given to work on: the streams that were read and the
//! directories that were listed, as values.

use vstd::prelude::*;

verus! {

/// What a path names on disk.
#[derive(Clone, Copy, PartialEq, Eq, Structural, Debug)]
pub enum PathKind {
    /// A regular file.
    File,
    /// A directory.
    Directory,
    /// Nothing, or something that is neither of the two.
    Other,
}

/// What reading a stream to its end has given.
pub struct ByteStream {
    /// The bytes that were read, in order.
    pub content: Vec<u8>,
    /// The error that ended the reading, if one did.
    pub failure: Option<std::io::Error>,
}

/// A stream as plain values.
pub struct StreamView {
    pub content: Seq<u8>,
    pub failure: Option<std::io::Error>,
}

impl View for ByteStream {
    type V = StreamView;

    open spec fn view(&self) -> StreamView {
        StreamView { content: self.content@, failure: self.failure }
    }
}

impl ByteStream {
    /// A stream that was read to its end without an error.
    pub fn from_bytes(bytes: &[u8]) -> (stream: ByteStream)
        ensures
            stream@ == (StreamView { content: bytes@, failure: None }),
    {
        ByteStream { content: vstd::slice::slice_to_vec(bytes), failure: None }
    }
}

/// What was found under a path.
pub enum Source {
    /// A regular file, with what reading it gave.
    File { path: String, stream: ByteStream },
    /// A directory, with what it holds as far as it could be listed, and the
    /// error that ended the listing, if one did.
    Directory { path: String, entries: Vec<Source>, failure: Option<std::io::Error> },
    /// Neither a file nor a directory.
    Other { path: String },
}

/// A source as plain values.
pub enum SourceView {
    File { path: Seq<char>, stream: StreamView },
    Directory { path: Seq<char>, entries: Seq<SourceView>, failure: Option<std::io::Error> },
    Other { path: Seq<char> },
}

impl View for Source {
    type V = SourceView;

    open spec fn view(&self) -> SourceView {
        view_of(*self)
    }
}

/// A source as plain values.
pub open spec fn view_of(source: Source) -> SourceView
    decreases source,
{
    match source {
        Source::File { path, stream } => SourceView::File { path: path@, stream: stream@ },
        Source::Directory { path, entries, failure } => SourceView::Directory {
            path: path@,
            entries: views_of(entries@),
            failure,
        },
        Source::Other { path } => SourceView::Other { path: path@ },
    }
}

/// The sources as plain values.
pub open spec fn views_of(sources: Seq<Source>) -> Seq<SourceView>
    decreases sources,
{
    if sources.len() == 0 {
        Seq::empty()
    } else {
        views_of(sources.drop_last()).push(view_of(sources.last()))
    }
}

/// The views of the sources stand in the order of the sources.
pub(crate) proof fn lemma_views_of(sources: Seq<Source>)
    ensures
        views_of(sources).len() == sources.len(),
        forall|i: int| 0 <= i < sources.len() ==> #[trigger] views_of(sources)[i] == sources[i]@,
    decreases sources.len(),
{
    if sources.len() > 0 {
        lemma_views_of(sources.drop_last());
    }
}

} // verus!
