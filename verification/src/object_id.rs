//! Object identifiers: a 128-bit random value, assigned at upload time,
//! that is both the API-visible handle and the on-disk filename component.
//!
//! The canonical textual form is the hyphenated lowercase hex rendering of
//! the 16 bytes (8-4-4-4-12 digits, hyphens at positions 8, 13, 18 and 23).
//! The download path accepts exactly that form and nothing else — any other
//! string, in particular anything that could traverse the storage root, is
//! rejected. Parsing and rendering are verified inverses.

use vstd::prelude::*;

verus! {

/// A lowercase ASCII hex digit.
pub open spec fn is_hex_digit(b: u8) -> bool {
    (48 <= b && b <= 57) || (97 <= b && b <= 102)
}

/// Value of a lowercase hex digit (zero on other bytes; callers guard).
pub open spec fn hex_val(b: u8) -> u8 {
    if 48 <= b && b <= 57 {
        (b - 48) as u8
    } else if 97 <= b && b <= 102 {
        (b - 97 + 10) as u8
    } else {
        0
    }
}

/// The lowercase hex digit for a value below sixteen.
pub open spec fn hex_char(n: u8) -> u8 {
    if n < 10 {
        (48 + n) as u8
    } else {
        (97 + n - 10) as u8
    }
}

/// The two hex digits of one byte, high digit first.
pub open spec fn hex_pair(b: u8) -> Seq<u8> {
    seq![hex_char((b / 16) as u8), hex_char((b % 16) as u8)]
}

/// The hex rendering of a byte string, in order.
pub open spec fn hex_of(bs: Seq<u8>) -> Seq<u8>
    decreases bs.len(),
{
    if bs.len() == 0 {
        Seq::empty()
    } else {
        hex_pair(bs[0]) + hex_of(bs.drop_first())
    }
}

/// The canonical textual form of 16 identifier bytes: five hex groups of
/// 8, 4, 4, 4 and 12 digits, separated by hyphens.
pub open spec fn canonical_spec(bytes: Seq<u8>) -> Seq<u8> {
    hex_of(bytes.subrange(0, 4)) + seq![45u8] + hex_of(bytes.subrange(4, 6)) + seq![45u8] + hex_of(
        bytes.subrange(6, 8),
    ) + seq![45u8] + hex_of(bytes.subrange(8, 10)) + seq![45u8] + hex_of(bytes.subrange(10, 16))
}

/// Position of the first hex digit of byte `j` within the canonical form:
/// two digits per byte, shifted right by one for each hyphen passed.
pub open spec fn digit_pos(j: int) -> int {
    2 * j + if j < 4 {
        0int
    } else if j < 6 {
        1
    } else if j < 8 {
        2
    } else if j < 10 {
        3
    } else {
        4
    }
}

/// Both hex digits of byte `j` are present at their positions.
pub open spec fn pos_ok(s: Seq<u8>, j: int) -> bool {
    is_hex_digit(s[digit_pos(j)]) && is_hex_digit(s[digit_pos(j) + 1])
}

/// `s` is a canonical identifier: 36 bytes, hyphens at positions 8, 13,
/// 18 and 23, and a hex digit at each of the 32 remaining positions (the
/// positions `digit_pos` enumerates, two per byte).
pub open spec fn is_canonical(s: Seq<u8>) -> bool {
    s.len() == 36 && s[8] == 45 && s[13] == 45 && s[18] == 45 && s[23] == 45 && (forall|j: int|
        0 <= j < 16 ==> #[trigger] pos_ok(s, j))
}

/// The byte encoded at position `j` of a canonical form.
pub open spec fn byte_at(s: Seq<u8>, j: int) -> u8 {
    (hex_val(s[digit_pos(j)]) * 16 + hex_val(s[digit_pos(j) + 1])) as u8
}

/// The 16 identifier bytes a canonical form encodes.
pub open spec fn decode(s: Seq<u8>) -> Seq<u8> {
    Seq::new(16, |j: int| byte_at(s, j))
}

/// Rendering one more byte appends its hex pair.
pub proof fn lemma_hex_of_push(s: Seq<u8>, b: u8)
    ensures
        hex_of(s + seq![b]) == hex_of(s) + hex_pair(b),
    decreases s.len(),
{
    if s.len() == 0 {
        assert(s + seq![b] =~= seq![b]);
        assert(seq![b].drop_first() =~= Seq::<u8>::empty());
        assert(hex_of(Seq::<u8>::empty()) =~= Seq::<u8>::empty());
        assert(hex_of(s + seq![b]) =~= hex_of(s) + hex_pair(b));
    } else {
        lemma_hex_of_push(s.drop_first(), b);
        assert((s + seq![b]).drop_first() =~= s.drop_first() + seq![b]);
        assert((s + seq![b])[0] == s[0]);
        assert(hex_of(s + seq![b]) =~= hex_of(s) + hex_pair(b));
    }
}

/// Pointwise form of `hex_of`: digit `2i` is the high digit of byte `i`,
/// digit `2i + 1` its low digit.
pub proof fn lemma_hex_of_index(s: Seq<u8>)
    ensures
        hex_of(s).len() == 2 * s.len(),
        forall|i: int|
            0 <= i < s.len() ==> hex_of(s)[2 * i] == hex_char(((#[trigger] s[i]) / 16) as u8)
                && hex_of(s)[2 * i + 1] == hex_char((s[i] % 16) as u8),
    decreases s.len(),
{
    if s.len() == 0 {
    } else {
        let t = s.drop_first();
        lemma_hex_of_index(t);
        assert forall|i: int|
            0 <= i < s.len() implies hex_of(s)[2 * i] == hex_char(
            ((#[trigger] s[i]) / 16) as u8,
        ) && hex_of(s)[2 * i + 1] == hex_char((s[i] % 16) as u8) by {
            if i > 0 {
                assert(t[i - 1] == s[i]);
                assert(hex_of(s)[2 * i] == hex_of(t)[2 * (i - 1)]);
                assert(hex_of(s)[2 * i + 1] == hex_of(t)[2 * (i - 1) + 1]);
            }
        }
    }
}

/// Pointwise form of the canonical rendering: hyphens at their four
/// positions, and the hex digits of byte `j` at `digit_pos(j)`.
pub proof fn lemma_canonical_index(b: Seq<u8>)
    requires
        b.len() == 16,
    ensures
        canonical_spec(b).len() == 36,
        canonical_spec(b)[8] == 45,
        canonical_spec(b)[13] == 45,
        canonical_spec(b)[18] == 45,
        canonical_spec(b)[23] == 45,
        forall|j: int|
            0 <= j < 16 ==> canonical_spec(b)[digit_pos(j)] == hex_char(
                ((#[trigger] b[j]) / 16) as u8,
            ) && canonical_spec(b)[digit_pos(j) + 1] == hex_char((b[j] % 16) as u8),
{
    let g0 = b.subrange(0, 4);
    let g1 = b.subrange(4, 6);
    let g2 = b.subrange(6, 8);
    let g3 = b.subrange(8, 10);
    let g4 = b.subrange(10, 16);
    lemma_hex_of_index(g0);
    lemma_hex_of_index(g1);
    lemma_hex_of_index(g2);
    lemma_hex_of_index(g3);
    lemma_hex_of_index(g4);
    let cs = canonical_spec(b);
    assert(hex_of(g0).len() == 8);
    assert(hex_of(g1).len() == 4);
    assert(hex_of(g2).len() == 4);
    assert(hex_of(g3).len() == 4);
    assert(hex_of(g4).len() == 12);
    assert(cs.len() == 36);
    assert forall|j: int|
        0 <= j < 16 implies cs[digit_pos(j)] == hex_char(((#[trigger] b[j]) / 16) as u8)
        && cs[digit_pos(j) + 1] == hex_char((b[j] % 16) as u8) by {
        if j < 4 {
            assert(g0[j] == b[j]);
            assert(cs[2 * j] == hex_of(g0)[2 * j]);
            assert(cs[2 * j + 1] == hex_of(g0)[2 * j + 1]);
        } else if j < 6 {
            assert(g1[j - 4] == b[j]);
            assert(cs[2 * j + 1] == hex_of(g1)[2 * (j - 4)]);
            assert(cs[2 * j + 2] == hex_of(g1)[2 * (j - 4) + 1]);
        } else if j < 8 {
            assert(g2[j - 6] == b[j]);
            assert(cs[2 * j + 2] == hex_of(g2)[2 * (j - 6)]);
            assert(cs[2 * j + 3] == hex_of(g2)[2 * (j - 6) + 1]);
        } else if j < 10 {
            assert(g3[j - 8] == b[j]);
            assert(cs[2 * j + 3] == hex_of(g3)[2 * (j - 8)]);
            assert(cs[2 * j + 4] == hex_of(g3)[2 * (j - 8) + 1]);
        } else {
            assert(g4[j - 10] == b[j]);
            assert(cs[2 * j + 4] == hex_of(g4)[2 * (j - 10)]);
            assert(cs[2 * j + 5] == hex_of(g4)[2 * (j - 10) + 1]);
        }
    }
}

/// The canonical form of any 16 bytes is itself canonical, and decodes
/// back to those bytes: rendering and parsing are inverses.
pub proof fn lemma_canonical_round_trip(b: Seq<u8>)
    requires
        b.len() == 16,
    ensures
        is_canonical(canonical_spec(b)),
        decode(canonical_spec(b)) == b,
{
    lemma_canonical_index(b);
    let cs = canonical_spec(b);
    assert forall|j: int| 0 <= j < 16 implies #[trigger] pos_ok(cs, j) by {
        assert(cs[digit_pos(j)] == hex_char(((b[j]) / 16) as u8));
        assert(cs[digit_pos(j) + 1] == hex_char((b[j] % 16) as u8));
    }
    assert forall|j: int| 0 <= j < 16 implies #[trigger] decode(cs)[j] == b[j] by {
        assert(cs[digit_pos(j)] == hex_char(((b[j]) / 16) as u8));
        assert(cs[digit_pos(j) + 1] == hex_char((b[j] % 16) as u8));
        assert(hex_val(hex_char(((b[j]) / 16) as u8)) == b[j] / 16);
        assert(hex_val(hex_char((b[j] % 16) as u8)) == b[j] % 16);
        assert((b[j] / 16) * 16 + b[j] % 16 == b[j]) by (nonlinear_arith);
    }
    assert(decode(cs) =~= b);
}

/// A canonical form is pinned down by what it encodes: re-rendering the
/// decoded bytes gives back the same 36 bytes. With `parse`'s contract this
/// says the download path accepts nothing but exact canonical forms.
pub proof fn lemma_canonical_exact(s: Seq<u8>)
    requires
        is_canonical(s),
    ensures
        canonical_spec(decode(s)) == s,
{
    let b = decode(s);
    assert(b.len() == 16);
    lemma_canonical_index(b);
    let cs = canonical_spec(b);
    assert forall|i: int| 0 <= i < 36 implies cs[i] == s[i] by {
        if i == 8 || i == 13 || i == 18 || i == 23 {
        } else {
            let j: int = if i < 8 {
                i / 2
            } else if i < 13 {
                (i - 1) / 2
            } else if i < 18 {
                (i - 2) / 2
            } else if i < 23 {
                (i - 3) / 2
            } else {
                (i - 4) / 2
            };
            assert(0 <= j < 16);
            assert(i == digit_pos(j) || i == digit_pos(j) + 1);
            assert(pos_ok(s, j));
            let hi = hex_val(s[digit_pos(j)]);
            let lo = hex_val(s[digit_pos(j) + 1]);
            assert(hi < 16 && lo < 16);
            assert(b[j] == (hi * 16 + lo) as u8);
            assert(hi * 16 + lo <= 255);
            assert(b[j] / 16 == hi && b[j] % 16 == lo) by (nonlinear_arith)
                requires
                    b[j] == hi * 16 + lo,
                    hi < 16,
                    lo < 16,
            ;
            assert(cs[digit_pos(j)] == hex_char(hi as u8));
            assert(cs[digit_pos(j) + 1] == hex_char(lo as u8));
            assert(hex_char(hex_val(s[digit_pos(j)])) == s[digit_pos(j)]);
            assert(hex_char(hex_val(s[digit_pos(j) + 1])) == s[digit_pos(j) + 1]);
        }
    }
    assert(cs =~= s);
}

/// The identifier of one stored object.
pub struct ObjectId {
    bytes: Vec<u8>,
}

impl View for ObjectId {
    type V = Seq<u8>;

    closed spec fn view(&self) -> Seq<u8> {
        self.bytes@
    }
}

impl ObjectId {
    /// An identifier always holds exactly 16 bytes.
    pub open spec fn wf(&self) -> bool {
        self@.len() == 16
    }

    /// Draw a fresh identifier from the random source.
    pub fn generate() -> (r: ObjectId)
        ensures
            r.wf(),
    {
        let bytes = random_id_bytes();
        ObjectId { bytes }
    }

    /// Build an identifier from its 16 raw bytes; any other length is
    /// refused.
    pub fn from_bytes(bytes: Vec<u8>) -> (r: Option<ObjectId>)
        ensures
            r is Some <==> bytes@.len() == 16,
            r is Some ==> r->Some_0.wf() && r->Some_0@ == bytes@,
    {
        if bytes.len() == 16 {
            Some(ObjectId { bytes })
        } else {
            None
        }
    }

    /// The identifier's 16 raw bytes.
    pub fn raw_bytes(&self) -> (r: &[u8])
        ensures
            r@ == self@,
    {
        self.bytes.as_slice()
    }

    /// Render the canonical textual form: 32 lowercase hex digits in
    /// groups of 8, 4, 4, 4 and 12, separated by hyphens.
    pub fn canonical(&self) -> (r: Vec<u8>)
        requires
            self.wf(),
        ensures
            r@ == canonical_spec(self@),
    {
        let mut v = hex_group(&self.bytes, 0, 4);
        v.push(45);
        let mut g = hex_group(&self.bytes, 4, 6);
        v.append(&mut g);
        v.push(45);
        let mut g = hex_group(&self.bytes, 6, 8);
        v.append(&mut g);
        v.push(45);
        let mut g = hex_group(&self.bytes, 8, 10);
        v.append(&mut g);
        v.push(45);
        let mut g = hex_group(&self.bytes, 10, 16);
        v.append(&mut g);
        proof {
            assert(v@ =~= canonical_spec(self@));
        }
        v
    }

    /// Parse a client-supplied identifier. Succeeds exactly on the
    /// canonical form; everything else — wrong length, wrong separators,
    /// uppercase digits, any stray byte — is rejected, so no crafted name
    /// can escape the storage namespace.
    pub fn parse(s: &[u8]) -> (r: Option<ObjectId>)
        ensures
            r is Some <==> is_canonical(s@),
            r is Some ==> r->Some_0.wf() && r->Some_0@ == decode(s@) && s@ == canonical_spec(
                r->Some_0@,
            ),
    {
        if s.len() != 36 {
            return None;
        }
        if !(s[8] == 45 && s[13] == 45 && s[18] == 45 && s[23] == 45) {
            return None;
        }
        let mut bytes: Vec<u8> = Vec::new();
        let mut j: usize = 0;
        while j < 16
            invariant
                0 <= j <= 16,
                s@.len() == 36,
                bytes@.len() == j,
                forall|i: int| 0 <= i < j ==> #[trigger] pos_ok(s@, i),
                forall|i: int| 0 <= i < j ==> #[trigger] bytes@[i] == byte_at(s@, i),
            decreases 16 - j,
        {
            let p = dpos(j);
            let hi = s[p];
            let lo = s[p + 1];
            if !is_hex_digit_exec(hi) || !is_hex_digit_exec(lo) {
                proof {
                    assert(!pos_ok(s@, j as int));
                }
                return None;
            }
            let b = hex_val_exec(hi) * 16 + hex_val_exec(lo);
            bytes.push(b);
            j = j + 1;
        }
        proof {
            assert(is_canonical(s@));
            assert(bytes@ =~= decode(s@));
            lemma_canonical_exact(s@);
        }
        Some(ObjectId { bytes })
    }
}

/// The storage location of an object under a configured root directory:
/// the root, a path separator, and the identifier's canonical form.
pub fn storage_path(root: &[u8], id: &ObjectId) -> (r: Vec<u8>)
    requires
        id.wf(),
    ensures
        r@ == root@ + seq![47u8] + canonical_spec(id@),
{
    let mut v: Vec<u8> = Vec::new();
    v.extend_from_slice(root);
    v.push(47);
    let mut c = id.canonical();
    v.append(&mut c);
    proof {
        assert(v@ =~= root@ + seq![47u8] + canonical_spec(id@));
    }
    v
}

/// The in-progress location of an object while its upload still runs: the
/// final location with a `.part` suffix. No client-supplied identifier can
/// name it — `parse` accepts canonical forms only — so a partially written
/// object stays invisible to the download path until, on successful
/// completion, it is renamed to its final location.
pub fn storage_temp_path(root: &[u8], id: &ObjectId) -> (r: Vec<u8>)
    requires
        id.wf(),
    ensures
        r@ == root@ + seq![47u8] + canonical_spec(id@) + seq![46u8, 112u8, 97u8, 114u8, 116u8],
{
    let mut v = storage_path(root, id);
    v.push(46);
    v.push(112);
    v.push(97);
    v.push(114);
    v.push(116);
    proof {
        assert(v@ =~= root@ + seq![47u8] + canonical_spec(id@) + seq![
            46u8,
            112u8,
            97u8,
            114u8,
            116u8,
        ]);
    }
    v
}

/// Relies on uuid::Uuid::new_v4 — a fresh version-4 identifier drawn from
/// the operating system's cryptographically secure random source — and on
/// uuid::Uuid::as_bytes, which exposes its 16 bytes. The values are
/// random, so nothing is promised of them beyond the count.
#[verifier::external_body]
fn random_id_bytes() -> (r: Vec<u8>)
    ensures
        r@.len() == 16,
{
    uuid::Uuid::new_v4().as_bytes().to_vec()
}

/// First hex-digit position of byte `j`, as `digit_pos` gives it.
fn dpos(j: usize) -> (r: usize)
    requires
        j < 16,
    ensures
        r == digit_pos(j as int),
        r <= 34,
{
    if j < 4 {
        2 * j
    } else if j < 6 {
        2 * j + 1
    } else if j < 8 {
        2 * j + 2
    } else if j < 10 {
        2 * j + 3
    } else {
        2 * j + 4
    }
}

/// Whether `b` is a lowercase hex digit.
fn is_hex_digit_exec(b: u8) -> (r: bool)
    ensures
        r == is_hex_digit(b),
{
    (48 <= b && b <= 57) || (97 <= b && b <= 102)
}

/// Value of a lowercase hex digit.
fn hex_val_exec(b: u8) -> (r: u8)
    requires
        is_hex_digit(b),
    ensures
        r == hex_val(b),
        r < 16,
{
    if b <= 57 {
        b - 48
    } else {
        b - 97 + 10
    }
}

/// Hex-render bytes `from..to` of `bytes`, two digits per byte.
fn hex_group(bytes: &Vec<u8>, from: usize, to: usize) -> (r: Vec<u8>)
    requires
        from <= to <= bytes@.len(),
    ensures
        r@ == hex_of(bytes@.subrange(from as int, to as int)),
{
    let mut r: Vec<u8> = Vec::new();
    let mut i = from;
    proof {
        assert(bytes@.subrange(from as int, from as int) =~= Seq::<u8>::empty());
        assert(r@ =~= hex_of(bytes@.subrange(from as int, from as int)));
    }
    while i < to
        invariant
            from <= i <= to <= bytes@.len(),
            r@ == hex_of(bytes@.subrange(from as int, i as int)),
        decreases to - i,
    {
        let b = bytes[i];
        r.push(hex_char_exec(b / 16));
        r.push(hex_char_exec(b % 16));
        proof {
            lemma_hex_of_push(bytes@.subrange(from as int, i as int), b);
            assert(bytes@.subrange(from as int, i + 1) =~= bytes@.subrange(from as int, i as int)
                + seq![b]);
            assert(r@ =~= hex_of(bytes@.subrange(from as int, i + 1)));
        }
        i = i + 1;
    }
    r
}

/// The lowercase hex digit for a value below sixteen.
fn hex_char_exec(n: u8) -> (r: u8)
    requires
        n < 16,
    ensures
        r == hex_char(n),
{
    if n < 10 {
        48 + n
    } else {
        97 + n - 10
    }
}

} // verus!
