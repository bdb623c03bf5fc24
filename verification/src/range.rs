//! The byte-range request: parsing the textual `bytes=<start>-<end>` form,
//! validating it against the stored object's length, and clamping an
//! over-long end. The grammar and the validation rules are stated as spec
//! functions; the executable parser is proved to match them exactly.

use vstd::prelude::*;

use crate::digits::{
    all_digits, dec_of, digits_val, is_digit, lemma_dec_of_val, lemma_digits_val_push,
    push_digit_sat, sat64,
};
use crate::errors::DownloadError;

verus! {

/// A validated byte span of a stored object: `count` bytes starting at
/// byte offset `start`. Always lies within the object: `start + count`
/// never exceeds the object's length. `count` is zero only for a
/// whole-object request on an empty object; a satisfied range request
/// always covers at least one byte.
#[derive(Clone, Copy, Debug, PartialEq, Eq, Structural)]
pub struct RangeSpec {
    /// Offset of the first byte served.
    pub start: u64,
    /// Number of bytes served.
    pub count: u64,
}

/// The bytes of the mandatory `bytes=` prefix of a range header.
pub open spec fn range_prefix() -> Seq<u8> {
    seq![98u8, 121u8, 116u8, 101u8, 115u8, 61u8]
}

/// Length of the maximal run of ASCII digits at the front of `s`.
pub open spec fn digit_run(s: Seq<u8>) -> nat
    decreases s.len(),
{
    if s.len() > 0 && is_digit(s[0]) {
        (digit_run(s.drop_first()) + 1) as nat
    } else {
        0
    }
}

/// `digit_run` is the index of the first non-digit.
pub proof fn lemma_digit_run_is(s: Seq<u8>, k: int)
    requires
        0 <= k <= s.len(),
        forall|i: int| 0 <= i < k ==> is_digit(#[trigger] s[i]),
        k == s.len() || !is_digit(s[k]),
    ensures
        digit_run(s) == k,
    decreases s.len(),
{
    if k == 0 {
        assert(s.len() == 0 || !is_digit(s[0]));
    } else {
        assert(is_digit(s[0]));
        let t = s.drop_first();
        assert forall|i: int| 0 <= i < k - 1 implies is_digit(#[trigger] t[i]) by {
            assert(t[i] == s[i + 1]);
        }
        assert(k - 1 == t.len() || !is_digit(t[k - 1]));
        lemma_digit_run_is(t, k - 1);
    }
}

/// What a range header means, if anything: the grammar is
/// `bytes=<digits>-` or `bytes=<digits>-<digits>`, nothing more.
/// The result is the start value and the optional end value.
pub open spec fn parse_range_spec(h: Seq<u8>) -> Option<(nat, Option<nat>)> {
    if h.len() < 6 || h.subrange(0, 6) != range_prefix() {
        None
    } else {
        let rest = h.skip(6);
        let k = digit_run(rest) as int;
        if k < 1 || k >= rest.len() || rest[k] != 45 {
            None
        } else {
            let start = digits_val(rest.subrange(0, k));
            let tail = rest.skip(k + 1);
            if tail.len() == 0 {
                Some((start, None))
            } else if all_digits(tail) {
                Some((start, Some(digits_val(tail))))
            } else {
                None
            }
        }
    }
}

/// Validation of a parsed range against the object's length `len`:
/// reject a start at or past the end of the object and a start above the
/// end; clamp an end past the last byte; a missing end means "through the
/// last byte". On success: the span's offset and byte count.
pub open spec fn validate_spec(start: nat, end: Option<nat>, len: nat) -> Result<
    (nat, nat),
    DownloadError,
> {
    if start >= len {
        Err(DownloadError::MalformedRange)
    } else {
        match end {
            None => Ok((start, (len - start) as nat)),
            Some(e) => if start > e {
                Err(DownloadError::MalformedRange)
            } else {
                let top: nat = if e <= len - 1 {
                    e
                } else {
                    (len - 1) as nat
                };
                Ok((start, (top - start + 1) as nat))
            },
        }
    }
}

/// The whole download decision on the request's range, over an object of
/// length `len`: no header means the whole object; a header is parsed and
/// validated; an unparsable header is a malformed range.
pub open spec fn resolve_spec(header: Option<Seq<u8>>, len: nat) -> Result<
    (nat, nat),
    DownloadError,
> {
    match header {
        None => Ok((0, len)),
        Some(h) => match parse_range_spec(h) {
            None => Err(DownloadError::MalformedRange),
            Some((s, e)) => validate_spec(s, e, len),
        },
    }
}

/// The view of an optional header slice.
pub open spec fn header_view(header: Option<&[u8]>) -> Option<Seq<u8>> {
    match header {
        None => None,
        Some(h) => Some(h@),
    }
}

/// Parse a range header. Returns the start and optional end values, each
/// capped at `u64::MAX`; returns `None` exactly when the header does not
/// match the grammar of `parse_range_spec`.
pub fn parse_range_header(h: &[u8]) -> (r: Option<(u64, Option<u64>)>)
    ensures
        r == (match parse_range_spec(h@) {
            None => None::<(u64, Option<u64>)>,
            Some((s, e)) => Some(
                (
                    sat64(s),
                    match e {
                        None => None::<u64>,
                        Some(v) => Some(sat64(v)),
                    },
                ),
            ),
        }),
{
    let n = h.len();
    if n < 6 {
        return None;
    }
    if !(h[0] == 98 && h[1] == 121 && h[2] == 116 && h[3] == 101 && h[4] == 115 && h[5] == 61) {
        proof {
            if h@.subrange(0, 6) == range_prefix() {
                assert(h@.subrange(0, 6)[0] == h@[0]);
                assert(h@.subrange(0, 6)[1] == h@[1]);
                assert(h@.subrange(0, 6)[2] == h@[2]);
                assert(h@.subrange(0, 6)[3] == h@[3]);
                assert(h@.subrange(0, 6)[4] == h@[4]);
                assert(h@.subrange(0, 6)[5] == h@[5]);
            }
        }
        return None;
    }
    proof {
        assert(h@.subrange(0, 6) =~= range_prefix());
    }
    let ghost rest = h@.skip(6);
    let mut i: usize = 6;
    let mut acc: u64 = 0;
    proof {
        assert(h@.subrange(6, 6) =~= Seq::<u8>::empty());
        assert(acc == sat64(digits_val(h@.subrange(6, 6))));
    }
    while i < n && 48 <= h[i] && h[i] <= 57
        invariant
            6 <= i <= n,
            n == h@.len(),
            forall|j: int| 6 <= j < i ==> is_digit(#[trigger] h@[j]),
            acc == sat64(digits_val(h@.subrange(6, i as int))),
        decreases n - i,
    {
        let ghost pref = h@.subrange(6, i as int);
        acc = push_digit_sat(acc, h[i], Ghost(digits_val(pref)));
        proof {
            assert(h@.subrange(6, i + 1).drop_last() =~= pref);
            lemma_digits_val_push(pref, h@[i as int]);
            assert(h@.subrange(6, i + 1) =~= pref + seq![h@[i as int]]);
        }
        i = i + 1;
    }
    let k = i - 6;
    proof {
        assert forall|j: int| 0 <= j < k implies is_digit(#[trigger] rest[j]) by {
            assert(rest[j] == h@[j + 6]);
        }
        if i < n {
            assert(rest[k as int] == h@[i as int]);
            assert(!is_digit(h@[i as int]));
        }
        lemma_digit_run_is(rest, k as int);
        assert(rest.subrange(0, k as int) =~= h@.subrange(6, i as int));
    }
    if k == 0 {
        return None;
    }
    if i >= n || h[i] != 45 {
        return None;
    }
    let start = acc;
    i = i + 1;
    let ghost tail = rest.skip(k + 1);
    proof {
        assert(tail.len() == n - i);
    }
    if i == n {
        return Some((start, None));
    }
    let t0 = i;
    let mut acc2: u64 = 0;
    proof {
        assert(h@.subrange(t0 as int, t0 as int) =~= Seq::<u8>::empty());
        assert(tail =~= h@.subrange(t0 as int, n as int));
    }
    while i < n
        invariant
            t0 <= i <= n,
            n == h@.len(),
            tail == h@.subrange(t0 as int, n as int),
            !all_digits(tail) ==> parse_range_spec(h@) is None,
            forall|j: int| t0 <= j < i ==> is_digit(#[trigger] h@[j]),
            acc2 == sat64(digits_val(h@.subrange(t0 as int, i as int))),
        decreases n - i,
    {
        let b = h[i];
        if !(48 <= b && b <= 57) {
            proof {
                assert(tail[i - t0] == h@[i as int]);
                assert(!all_digits(tail));
            }
            return None;
        }
        let ghost pref = h@.subrange(t0 as int, i as int);
        acc2 = push_digit_sat(acc2, b, Ghost(digits_val(pref)));
        proof {
            assert(h@.subrange(t0 as int, i + 1).drop_last() =~= pref);
            lemma_digits_val_push(pref, h@[i as int]);
            assert(h@.subrange(t0 as int, i + 1) =~= pref + seq![h@[i as int]]);
        }
        i = i + 1;
    }
    proof {
        assert(tail =~= h@.subrange(t0 as int, n as int));
        assert(all_digits(tail)) by {
            assert forall|j: int| 0 <= j < tail.len() implies is_digit(#[trigger] tail[j]) by {
                assert(tail[j] == h@[j + t0]);
            }
        }
    }
    Some((start, Some(acc2)))
}

/// Resolve a download request's optional range header against the object's
/// length: the executable form of `resolve_spec`.
pub fn resolve_range(header: Option<&[u8]>, len: u64) -> (r: Result<RangeSpec, DownloadError>)
    ensures
        (match (r, resolve_spec(header_view(header), len as nat)) {
            (Ok(rr), Ok(sc)) => rr.start == sc.0 && rr.count == sc.1,
            (Err(e1), Err(e2)) => e1 == e2,
            _ => false,
        }),
        r is Ok ==> (r->Ok_0.start + r->Ok_0.count <= len),
        (r is Ok && header is Some) ==> r->Ok_0.count >= 1,
{
    match header {
        None => Ok(RangeSpec { start: 0, count: len }),
        Some(h) => {
            match parse_range_header(h) {
                None => Err(DownloadError::MalformedRange),
                Some((s_sat, e_opt)) => {
                    let ghost parsed = parse_range_spec(h@)->Some_0;
                    let ghost s = parsed.0;
                    if s_sat >= len {
                        proof {
                            assert(s >= len);
                        }
                        return Err(DownloadError::MalformedRange);
                    }
                    proof {
                        assert(s < len && s_sat == s);
                    }
                    match e_opt {
                        None => Ok(RangeSpec { start: s_sat, count: len - s_sat }),
                        Some(e_sat) => {
                            let ghost e = parsed.1->Some_0;
                            if s_sat > e_sat {
                                proof {
                                    assert(s > e);
                                }
                                return Err(DownloadError::MalformedRange);
                            }
                            proof {
                                assert(s <= e);
                            }
                            let top: u64 = if e_sat <= len - 1 {
                                e_sat
                            } else {
                                len - 1
                            };
                            Ok(RangeSpec { start: s_sat, count: top - s_sat + 1 })
                        },
                    }
                },
            }
        },
    }
}

/// An open-ended range `bytes=<x>-` over an object of length `len` is
/// served from byte `x` through the last byte when `x < len`, and is
/// rejected as malformed when `x >= len`.
pub proof fn lemma_open_ended_range(x: nat, len: nat)
    ensures
        resolve_spec(Some(range_prefix() + dec_of(x) + seq![45u8]), len) == (if x < len {
            Ok::<(nat, nat), DownloadError>((x, (len - x) as nat))
        } else {
            Err::<(nat, nat), DownloadError>(DownloadError::MalformedRange)
        }),
{
    let h = range_prefix() + dec_of(x) + seq![45u8];
    lemma_dec_of_val(x);
    let d = dec_of(x).len() as int;
    assert(h.subrange(0, 6) =~= range_prefix());
    let rest = h.skip(6);
    assert(rest =~= dec_of(x) + seq![45u8]);
    assert forall|i: int| 0 <= i < d implies is_digit(#[trigger] rest[i]) by {
        assert(rest[i] == dec_of(x)[i]);
    }
    assert(rest[d] == 45u8);
    assert(!is_digit(rest[d]));
    lemma_digit_run_is(rest, d);
    assert(rest.subrange(0, d) =~= dec_of(x));
    assert(rest.skip(d + 1).len() == 0);
    assert(parse_range_spec(h) == Some((x, Option::<nat>::None)));
}

/// A closed range `bytes=<x>-<y>` parses to exactly those two values,
/// whatever decimal digits render them.
pub proof fn lemma_parse_closed_range(x: nat, y: nat)
    ensures
        parse_range_spec(range_prefix() + dec_of(x) + seq![45u8] + dec_of(y)) == Some(
            (x, Some(y)),
        ),
{
    let h = range_prefix() + dec_of(x) + seq![45u8] + dec_of(y);
    lemma_dec_of_val(x);
    lemma_dec_of_val(y);
    let d = dec_of(x).len() as int;
    assert(h.subrange(0, 6) =~= range_prefix());
    let rest = h.skip(6);
    assert(rest =~= dec_of(x) + seq![45u8] + dec_of(y));
    assert forall|i: int| 0 <= i < d implies is_digit(#[trigger] rest[i]) by {
        assert(rest[i] == dec_of(x)[i]);
    }
    assert(rest[d] == 45u8);
    assert(!is_digit(rest[d]));
    lemma_digit_run_is(rest, d);
    assert(rest.subrange(0, d) =~= dec_of(x));
    let tail = rest.skip(d + 1);
    assert(tail =~= dec_of(y));
}

/// A requested end past the object's last byte is clamped, not rejected:
/// the request is served from `start` through the last byte, exactly as an
/// open-ended request from `start` would be.
pub proof fn lemma_overlong_end_clamped(start: nat, e: nat, len: nat)
    requires
        start < len,
        e > len - 1,
    ensures
        validate_spec(start, Some(e), len) == Ok::<(nat, nat), DownloadError>(
            (start, (len - start) as nat),
        ),
        validate_spec(start, Some(e), len) == validate_spec(start, None, len),
{
}

} // verus!
