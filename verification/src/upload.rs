//! The upload streamer's decision core. The session tracks one upload: which
//! multipart field is being read, how many bytes of the `data` field were
//! written, and — as the mathematical model — the exact byte sequence the
//! backing file holds. The boundary layer performs the actual reads and
//! writes and reports each outcome back; every decision (persist, discard,
//! abort, clean up) is taken here and is verified.

use vstd::prelude::*;

use crate::errors::{DownloadError, UploadError};
use crate::partial::download_decision;

verus! {

/// What to do with one arriving chunk.
#[derive(Clone, Copy, Debug, PartialEq, Eq, Structural)]
pub enum ChunkDecision {
    /// The chunk belongs to the `data` field and fits under the size limit:
    /// append it to the backing file.
    Persist,
    /// The chunk belongs to some other field: consume it, write nothing.
    Discard,
    /// The chunk would push the upload past the configured size limit:
    /// stop the transfer and clean up.
    Abort,
}

/// One in-flight upload: the target's state while the multipart stream is
/// consumed. Created when the request begins, consumed when it ends; it
/// never outlives one request.
pub struct UploadSession {
    /// Configured maximum accepted upload size, in bytes.
    limit: u64,
    /// Bytes of the `data` field written to the backing file so far.
    received: u64,
    /// Whether the field currently being read is the `data` field.
    in_data: bool,
    /// The model of the backing file: exactly the bytes written so far.
    content: Ghost<Seq<u8>>,
}

impl UploadSession {
    /// The session's counter agrees with its model and the limit holds.
    pub closed spec fn wf(&self) -> bool {
        self.received == self.content@.len() && self.received <= self.limit
    }

    /// The bytes the backing file holds.
    pub closed spec fn content(&self) -> Seq<u8> {
        self.content@
    }

    /// The configured maximum upload size.
    pub closed spec fn limit_spec(&self) -> u64 {
        self.limit
    }

    /// Whether the field currently being read is the `data` field.
    pub closed spec fn receiving(&self) -> bool {
        self.in_data
    }

    /// Open a session over a freshly created, empty backing file.
    /// `limit` is the configured maximum accepted upload size.
    pub fn begin(limit: u64) -> (s: Self)
        ensures
            s.wf(),
            s.content() == Seq::<u8>::empty(),
            s.limit_spec() == limit,
            !s.receiving(),
    {
        UploadSession { limit, received: 0, in_data: false, content: Ghost(Seq::empty()) }
    }

    /// A new multipart field begins. Only a field named `data` is
    /// persisted; everything else will be consumed and discarded.
    pub fn start_field(&mut self, is_data: bool)
        requires
            old(self).wf(),
        ensures
            final(self).wf(),
            final(self).receiving() == is_data,
            final(self).content() == old(self).content(),
            final(self).limit_spec() == old(self).limit_spec(),
    {
        self.in_data = is_data;
    }

    /// Decide what to do with a chunk of `chunk_len` bytes: persist it when
    /// the current field is `data` and the size limit still allows it,
    /// discard it when the field is not `data`, abort when it would exceed
    /// the limit.
    pub fn decide_chunk(&self, chunk_len: u64) -> (d: ChunkDecision)
        requires
            self.wf(),
        ensures
            d == (if !self.receiving() {
                ChunkDecision::Discard
            } else if self.content().len() + chunk_len <= self.limit_spec() {
                ChunkDecision::Persist
            } else {
                ChunkDecision::Abort
            }),
    {
        if !self.in_data {
            ChunkDecision::Discard
        } else if chunk_len <= self.limit - self.received {
            ChunkDecision::Persist
        } else {
            ChunkDecision::Abort
        }
    }

    /// The boundary wrote `chunk` to the backing file, in order, after
    /// everything written before: account for it. Bytes are appended
    /// exactly in arrival order; nothing is reordered or dropped.
    pub fn record_written(&mut self, chunk: &[u8])
        requires
            old(self).wf(),
            old(self).receiving(),
            old(self).content().len() + chunk@.len() <= old(self).limit_spec(),
        ensures
            final(self).wf(),
            final(self).content() == old(self).content() + chunk@,
            final(self).received_spec() == old(self).received_spec() + chunk@.len(),
            final(self).receiving(),
            final(self).limit_spec() == old(self).limit_spec(),
    {
        self.received = self.received + chunk.len() as u64;
        proof {
            self.content@ = self.content@ + chunk@;
        }
    }

    /// Bytes written so far.
    pub closed spec fn received_spec(&self) -> u64 {
        self.received
    }

    /// The multipart stream ended with no error: the upload is complete.
    /// Returns the accumulated byte count; the session is consumed and the
    /// object is now, and only now, complete and visible.
    pub fn finish(self) -> (r: u64)
        requires
            self.wf(),
        ensures
            r == self.content().len(),
    {
        self.received
    }

    /// The transfer failed (stream error, over-limit chunk, or a failed
    /// write): the boundary deleted the partial file and reports whether
    /// that deletion succeeded. A failed deletion is the distinct, more
    /// severe `CleanupFailed`; it is never collapsed into the ordinary
    /// `UploadInterrupted`.
    pub fn abort(self, delete_succeeded: bool) -> (e: UploadError)
        ensures
            e == abort_outcome(delete_succeeded),
    {
        if delete_succeeded {
            UploadError::UploadInterrupted
        } else {
            UploadError::CleanupFailed
        }
    }
}

/// How a failed transfer is reported: `UploadInterrupted` when the partial
/// file was removed, `CleanupFailed` when even that removal failed.
pub open spec fn abort_outcome(delete_succeeded: bool) -> UploadError {
    if delete_succeeded {
        UploadError::UploadInterrupted
    } else {
        UploadError::CleanupFailed
    }
}

/// An interrupted upload leaves no retrievable partial object: when the
/// cleanup deletion succeeded, the failure is reported as
/// `UploadInterrupted` and the object is gone, so any later download of
/// its identifier — which then finds nothing — is answered `NotFound`,
/// whatever range it asks for; when the deletion failed, the distinct
/// `CleanupFailed` outcome is reported at upload time instead.
pub proof fn lemma_interrupted_upload(delete_succeeded: bool, len: nat, header: Option<Seq<u8>>)
    ensures
        delete_succeeded ==> abort_outcome(delete_succeeded) == UploadError::UploadInterrupted
            && download_decision(false, len, header) == Err::<(nat, nat), DownloadError>(
            DownloadError::NotFound,
        ),
        !delete_succeeded ==> abort_outcome(delete_succeeded) == UploadError::CleanupFailed,
{
}

/// The concatenation, in order, of a sequence of chunks.
pub open spec fn concat_chunks(chunks: Seq<Seq<u8>>) -> Seq<u8>
    decreases chunks.len(),
{
    if chunks.len() == 0 {
        Seq::empty()
    } else {
        concat_chunks(chunks.drop_last()) + chunks.last()
    }
}

/// Sum of the chunks' lengths.
pub open spec fn total_len(chunks: Seq<Seq<u8>>) -> nat
    decreases chunks.len(),
{
    if chunks.len() == 0 {
        0
    } else {
        total_len(chunks.drop_last()) + chunks.last().len()
    }
}

/// A session that starts from `base` and records the given chunks, in
/// order, ends with `base` followed by their concatenation — `record_written`
/// extends the model by exactly one chunk, so a run of them folds up to
/// this.
pub open spec fn after_chunks(base: Seq<u8>, chunks: Seq<Seq<u8>>) -> Seq<u8>
    decreases chunks.len(),
{
    if chunks.len() == 0 {
        base
    } else {
        after_chunks(base, chunks.drop_last()) + chunks.last()
    }
}

/// An uninterrupted upload stores exactly the bytes sent: recording a
/// sequence of chunks, in order, onto an empty file yields their
/// concatenation, and the stored object's length is the sum of the chunks'
/// lengths.
pub proof fn lemma_upload_identity(chunks: Seq<Seq<u8>>)
    ensures
        after_chunks(Seq::<u8>::empty(), chunks) == concat_chunks(chunks),
        concat_chunks(chunks).len() == total_len(chunks),
    decreases chunks.len(),
{
    if chunks.len() == 0 {
    } else {
        lemma_upload_identity(chunks.drop_last());
    }
}

} // verus!
