//! Character-level differences between two paths, computed by `dissimilar`.
use dissimilar::{diff, Chunk};
use vstd::prelude::*;

verus! {

/// The kind of a piece of a diff.
#[derive(Clone, Copy, Debug, PartialEq, Eq, Structural)]
pub enum ChunkKind {
    /// Text common to both sides.
    Equal,
    /// Text only in the old side.
    Delete,
    /// Text only in the new side.
    Insert,
}

/// One piece of a diff.
#[derive(Clone, Debug)]
pub struct DiffChunk {
    pub kind: ChunkKind,
    pub text: String,
}

impl View for DiffChunk {
    type V = (ChunkKind, Seq<char>);

    open spec fn view(&self) -> (ChunkKind, Seq<char>) {
        (self.kind, self.text@)
    }
}

/// The chunks that `dissimilar::diff(old, new)` returns, each as its kind and
/// its text.
pub uninterp spec fn text_diff(old: Seq<char>, new: Seq<char>) -> Seq<(ChunkKind, Seq<char>)>;

/// The views of a sequence of chunks.
pub open spec fn chunk_views(chunks: Seq<DiffChunk>) -> Seq<(ChunkKind, Seq<char>)> {
    chunks.map_values(|c: DiffChunk| c@)
}

/// The text of the old side of a diff: the common and the deleted pieces,
/// in order.
pub open spec fn old_side(chunks: Seq<(ChunkKind, Seq<char>)>) -> Seq<char>
    decreases chunks.len(),
{
    if chunks.len() == 0 {
        Seq::empty()
    } else if chunks.last().0 == ChunkKind::Insert {
        old_side(chunks.drop_last())
    } else {
        old_side(chunks.drop_last()) + chunks.last().1
    }
}

/// The text of the new side of a diff: the common and the inserted pieces,
/// in order.
pub open spec fn new_side(chunks: Seq<(ChunkKind, Seq<char>)>) -> Seq<char>
    decreases chunks.len(),
{
    if chunks.len() == 0 {
        Seq::empty()
    } else if chunks.last().0 == ChunkKind::Delete {
        new_side(chunks.drop_last())
    } else {
        new_side(chunks.drop_last()) + chunks.last().1
    }
}

/// Calls `dissimilar::diff` and copies each chunk it returns into a
/// `DiffChunk`; the result is the named value `text_diff(old@, new@)`.
/// `diff` cuts its chunks from the inputs one after the other, so the common
/// and deleted pieces make up `old`, and the common and inserted pieces make
/// up `new`.
#[verifier::external_body]
pub(crate) fn diff_chunks(old: &str, new: &str) -> (r: Vec<DiffChunk>)
    ensures
        chunk_views(r@) == text_diff(old@, new@),
        old_side(chunk_views(r@)) == old@,
        new_side(chunk_views(r@)) == new@,
{
    diff(old, new).into_iter().map(|chunk| match chunk {
        Chunk::Equal(t) => DiffChunk { kind: ChunkKind::Equal, text: t.to_string() },
        Chunk::Delete(t) => DiffChunk { kind: ChunkKind::Delete, text: t.to_string() },
        Chunk::Insert(t) => DiffChunk { kind: ChunkKind::Insert, text: t.to_string() },
    }).collect()
}

} // verus!
