//! The partial-content responder: deciding a download request, checking the
//! bytes read against the promised span, and producing the framing values
//! (`Content-Range`, `Content-Length`) for the response boundary.

use vstd::prelude::*;

use crate::digits::{dec_of, format_u64};
use crate::errors::DownloadError;
use crate::range::{
    header_view, lemma_parse_closed_range, range_prefix, resolve_range, resolve_spec, RangeSpec,
};

verus! {

/// The bytes a span `[start, start + count)` selects from a stored object's
/// content.
pub open spec fn span_bytes(file: Seq<u8>, start: nat, count: nat) -> Seq<u8> {
    file.subrange(start as int, (start + count) as int)
}

/// A successful download response: the exact byte slice of the object,
/// plus the framing values the boundary needs.
pub struct PartialContent {
    /// The bytes served.
    pub data: Vec<u8>,
    /// Offset of the first byte served.
    pub start: u64,
    /// Number of bytes served.
    pub count: u64,
    /// The whole object's length.
    pub total: u64,
}

impl PartialContent {
    /// The framing values are consistent: the slice has exactly `count`
    /// bytes and lies inside the object.
    pub open spec fn wf(&self) -> bool {
        self.data@.len() == self.count && self.start + self.count <= self.total
    }

    /// The value of the `Content-Length` header: the slice's length.
    pub fn content_length(&self) -> (r: u64)
        ensures
            r == self.count,
    {
        self.count
    }

    /// Offset of the last byte served.
    pub fn end(&self) -> (r: u64)
        requires
            self.count >= 1,
            self.wf(),
        ensures
            r == self.start + self.count - 1,
    {
        self.start + self.count - 1
    }

    /// The value of the `Content-Range` header:
    /// `bytes <start>-<end>/<total>`.
    pub fn content_range(&self) -> (r: Vec<u8>)
        requires
            self.count >= 1,
            self.wf(),
        ensures
            r@ == content_range_spec(self.start as nat, self.count as nat, self.total as nat),
    {
        let mut v: Vec<u8> = Vec::new();
        v.push(98);
        v.push(121);
        v.push(116);
        v.push(101);
        v.push(115);
        v.push(32);
        proof {
            assert(v@ =~= seq![98u8, 121u8, 116u8, 101u8, 115u8, 32u8]);
        }
        let mut d = format_u64(self.start);
        v.append(&mut d);
        v.push(45);
        let mut e = format_u64(self.start + self.count - 1);
        v.append(&mut e);
        v.push(47);
        let mut t = format_u64(self.total);
        v.append(&mut t);
        proof {
            assert(v@ =~= content_range_spec(
                self.start as nat,
                self.count as nat,
                self.total as nat,
            ));
        }
        v
    }
}

/// The bytes of `Content-Range: bytes <start>-<end>/<total>` for a span of
/// `count >= 1` bytes at `start` in an object of `total` bytes.
pub open spec fn content_range_spec(start: nat, count: nat, total: nat) -> Seq<u8> {
    seq![98u8, 121u8, 116u8, 101u8, 115u8, 32u8] + dec_of(start) + seq![45u8] + dec_of(
        (start + count - 1) as nat,
    ) + seq![47u8] + dec_of(total)
}

/// What a download request is answered, whoever asks and however the
/// object came to exist or not: an absent object is `NotFound` whatever
/// the rest of the request says; an existing object's optional range
/// header is resolved against its length.
pub open spec fn download_decision(exists: bool, len: nat, header: Option<Seq<u8>>) -> Result<
    (nat, nat),
    DownloadError,
> {
    if !exists {
        Err(DownloadError::NotFound)
    } else {
        resolve_spec(header, len)
    }
}

/// Decide a download request: the executable form of `download_decision`.
pub fn plan_download(exists: bool, len: u64, header: Option<&[u8]>) -> (r: Result<
    RangeSpec,
    DownloadError,
>)
    ensures
        !exists ==> r == Err::<RangeSpec, DownloadError>(DownloadError::NotFound),
        (match (r, download_decision(exists, len as nat, header_view(header))) {
            (Ok(rr), Ok(sc)) => rr.start == sc.0 && rr.count == sc.1,
            (Err(e1), Err(e2)) => e1 == e2,
            _ => false,
        }),
        r is Ok ==> (r->Ok_0.start + r->Ok_0.count <= len),
        (r is Ok && header is Some) ==> r->Ok_0.count >= 1,
{
    if !exists {
        return Err(DownloadError::NotFound);
    }
    resolve_range(header, len)
}

/// Check the bytes actually read against the span the request was promised:
/// a read of any other length than the span's is the `Inconsistent` failure
/// (the object changed between the size check and the read); a read of the
/// right length is passed through unchanged, with its framing values.
pub fn check_read(data: Vec<u8>, span: RangeSpec, total: u64) -> (r: Result<
    PartialContent,
    DownloadError,
>)
    requires
        span.start + span.count <= total,
    ensures
        r is Ok <==> data@.len() == span.count,
        (match r {
            Ok(pc) => pc.data@ == data@ && pc.start == span.start && pc.count == span.count
                && pc.total == total && pc.wf(),
            Err(e) => e == DownloadError::Inconsistent,
        }),
{
    if data.len() as u64 == span.count {
        Ok(PartialContent { data, start: span.start, count: span.count, total })
    } else {
        Err(DownloadError::Inconsistent)
    }
}

/// Sum of a sequence of span lengths.
pub open spec fn sum_counts(counts: Seq<nat>) -> nat
    decreases counts.len(),
{
    if counts.len() == 0 {
        0
    } else {
        counts[0] + sum_counts(counts.drop_first())
    }
}

/// The concatenation, in order, of the spans of `file` that start at `at`
/// and have the given lengths, each span beginning where the previous one
/// ended.
pub open spec fn concat_spans(file: Seq<u8>, at: nat, counts: Seq<nat>) -> Seq<u8>
    decreases counts.len(),
{
    if counts.len() == 0 {
        Seq::empty()
    } else {
        span_bytes(file, at, counts[0]) + concat_spans(file, at + counts[0], counts.drop_first())
    }
}

/// Consecutive disjoint spans reconstruct the stretch of the object they
/// tile: reading `counts[0]` bytes at `at`, then `counts[1]` bytes where
/// that span ended, and so on, yields exactly the object's bytes from `at`
/// to `at + sum_counts(counts)`.
pub proof fn lemma_spans_tile(file: Seq<u8>, at: nat, counts: Seq<nat>)
    requires
        at + sum_counts(counts) <= file.len(),
    ensures
        concat_spans(file, at, counts) == file.subrange(
            at as int,
            (at + sum_counts(counts)) as int,
        ),
    decreases counts.len(),
{
    if counts.len() == 0 {
        assert(concat_spans(file, at, counts) =~= file.subrange(at as int, at as int));
    } else {
        let c0 = counts[0];
        let rest = counts.drop_first();
        lemma_spans_tile(file, at + c0, rest);
        assert(span_bytes(file, at, c0) + file.subrange(
            (at + c0) as int,
            (at + c0 + sum_counts(rest)) as int,
        ) =~= file.subrange(at as int, (at + sum_counts(counts)) as int));
    }
}

/// Spans that tile the whole object reconstruct it: when consecutive
/// disjoint spans start at byte zero and their lengths sum to the object's
/// length, the concatenation of what each returns is the object itself.
pub proof fn lemma_tiling_reconstructs(file: Seq<u8>, counts: Seq<nat>)
    requires
        sum_counts(counts) == file.len(),
    ensures
        concat_spans(file, 0, counts) == file,
{
    lemma_spans_tile(file, 0, counts);
    assert(file.subrange(0, file.len() as int) =~= file);
}

/// A first-byte request `bytes=0-0` on any non-empty object is satisfied
/// with exactly one byte — the object's first — and framed
/// `bytes 0-0/<len>`.
pub proof fn lemma_first_byte_request(file: Seq<u8>)
    requires
        1 <= file.len(),
    ensures
        resolve_spec(Some(range_prefix() + seq![48u8, 45u8, 48u8]), file.len()) == Ok::<
            (nat, nat),
            DownloadError,
        >((0, 1)),
        span_bytes(file, 0, 1) == seq![file[0]],
        content_range_spec(0, 1, file.len()) == seq![
            98u8,
            121u8,
            116u8,
            101u8,
            115u8,
            32u8,
            48u8,
            45u8,
            48u8,
            47u8,
        ] + dec_of(file.len()),
{
    lemma_parse_closed_range(0, 0);
    assert(dec_of(0) == seq![48u8]);
    assert(range_prefix() + seq![48u8, 45u8, 48u8] =~= range_prefix() + dec_of(0) + seq![45u8]
        + dec_of(0));
    assert(span_bytes(file, 0, 1) =~= seq![file[0]]);
    assert(content_range_spec(0, 1, file.len()) =~= seq![
        98u8,
        121u8,
        116u8,
        101u8,
        115u8,
        32u8,
        48u8,
        45u8,
        48u8,
        47u8,
    ] + dec_of(file.len()));
}

/// A download of a whole object (no range header) serves every byte, in
/// order: the resolved span is `[0, len)` and its bytes are the object's
/// bytes, unchanged.
pub proof fn lemma_whole_object_round_trip(file: Seq<u8>)
    ensures
        resolve_spec(None, file.len()) == Ok::<(nat, nat), DownloadError>((0, file.len())),
        span_bytes(file, 0, file.len()) == file,
{
    assert(file.subrange(0, file.len() as int) =~= file);
}

} // verus!
