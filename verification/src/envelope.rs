//! Little-endian fields and the checksummed frame around saved documents.
//!
//! A frame is a header of twenty-four bytes (magic, schema, version, flags and
//! payload length), the payload, and a digest of everything before it. The
//! digest function belongs to the host and is handed in.
use vstd::prelude::*;
use vstd::utf8::{decode_utf8, valid_utf8};

verus! {

/// Bytes of the header.
pub const HEADER_LEN: usize = 24;

/// Bytes of the digest.
pub const DIGEST_LEN: usize = 32;

/// Bytes of header and digest.
pub const FRAME_LEN: usize = 56;

/// A digest of thirty-two bytes.
#[derive(Clone, Copy, Debug, PartialEq, Eq)]
pub struct Sha256Digest {
    pub bytes: [u8; 32],
}

impl Sha256Digest {
    /// The digest's bytes.
    pub open spec fn data(self) -> Seq<u8> {
        self.bytes@
    }

    pub fn new(bytes: [u8; 32]) -> (r: Self)
        ensures
            r.data() == bytes@,
    {
        Sha256Digest { bytes }
    }

    /// Whether two digests are the same.
    pub fn same(&self, other: &Sha256Digest) -> (r: bool)
        ensures
            r == (self.data() == other.data()),
    {
        let mut i: usize = 0;
        while i < 32
            invariant
                i <= 32,
                forall|j: int| 0 <= j < i ==> self.bytes@[j] == other.bytes@[j],
            decreases 32 - i,
        {
            if self.bytes[i] != other.bytes[i] {
                return false;
            }
            i = i + 1;
        }
        assert(self.data() =~= other.data());
        true
    }
}

/// The lowest `width` bytes of a number, least significant first.
pub open spec fn le_bytes(n: nat, width: nat) -> Seq<u8>
    decreases width,
{
    if width == 0 {
        Seq::empty()
    } else {
        seq![(n % 256) as u8] + le_bytes(n / 256, (width - 1) as nat)
    }
}

/// The number whose bytes these are, least significant first.
pub open spec fn le_value(bytes: Seq<u8>) -> nat
    decreases bytes.len(),
{
    if bytes.len() == 0 {
        0
    } else {
        bytes[0] as nat + 256 * le_value(bytes.subrange(1, bytes.len() as int))
    }
}

/// The first number that does not fit in `width` bytes.
pub open spec fn le_limit(width: nat) -> nat
    decreases width,
{
    if width == 0 {
        1
    } else {
        256 * le_limit((width - 1) as nat)
    }
}

pub broadcast proof fn le_bytes_len(n: nat, width: nat)
    ensures
        (#[trigger] le_bytes(n, width)).len() == width,
    decreases width,
{
    if width > 0 {
        le_bytes_len(n / 256, (width - 1) as nat);
    }
}

/// Reading back the bytes of a number gives the number.
pub proof fn le_round_trip(n: nat, width: nat)
    requires
        n < le_limit(width),
    ensures
        le_value(le_bytes(n, width)) == n,
    decreases width,
{
    if width > 0 {
        let rest = le_bytes(n / 256, (width - 1) as nat);
        le_round_trip(n / 256, (width - 1) as nat);
        le_bytes_len(n / 256, (width - 1) as nat);
        let all = le_bytes(n, width);
        assert(all.subrange(1, all.len() as int) =~= rest);
    }
}

pub proof fn le_value_bound(bytes: Seq<u8>)
    ensures
        le_value(bytes) < le_limit(bytes.len()),
    decreases bytes.len(),
{
    if bytes.len() > 0 {
        le_value_bound(bytes.subrange(1, bytes.len() as int));
    }
}

pub proof fn le_limits()
    ensures
        le_limit(0) == 1,
        le_limit(1) == 0x100,
        le_limit(2) == 0x1_0000,
        le_limit(4) == 0x1_0000_0000,
        le_limit(8) == 0x1_0000_0000_0000_0000,
{
    reveal_with_fuel(le_limit, 9);
}

/// Appends the lowest `width` bytes of a number.
pub fn put_le(out: &mut Vec<u8>, n: u64, width: usize)
    ensures
        final(out)@ == old(out)@ + le_bytes(n as nat, width as nat),
{
    let ghost all = out@ + le_bytes(n as nat, width as nat);
    let mut rest: u64 = n;
    let mut left: usize = width;
    while left > 0
        invariant
            all == out@ + le_bytes(rest as nat, left as nat),
        decreases left,
    {
        let ghost before = out@;
        out.push((rest % 256) as u8);
        assert(all =~= out@ + le_bytes((rest / 256) as nat, (left - 1) as nat));
        rest = rest / 256;
        left = left - 1;
    }
    assert(all =~= out@);
}

/// Appends bytes.
pub fn put_raw(out: &mut Vec<u8>, bytes: &[u8])
    ensures
        final(out)@ == old(out)@ + bytes@,
{
    let ghost before = out@;
    let n: usize = bytes.len();
    let mut i: usize = 0;
    while i < n
        invariant
            i <= n == bytes@.len(),
            out@ == before + bytes@.subrange(0, i as int),
        decreases n - i,
    {
        out.push(bytes[i]);
        i = i + 1;
        assert(out@ =~= before + bytes@.subrange(0, i as int));
    }
    assert(bytes@.subrange(0, n as int) =~= bytes@);
}

/// The number in the `width` bytes at a position.
pub fn read_le(bytes: &Vec<u8>, at: usize, width: usize) -> (r: u64)
    requires
        width <= 8,
        at + width <= bytes.len(),
    ensures
        r == le_value(bytes@.subrange(at as int, at + width)),
{
    let mut value: u64 = 0;
    let mut i: usize = width;
    let ghost whole = bytes@.subrange(at as int, at + width);
    proof {
        assert(bytes@.subrange(at + width, at + width) =~= Seq::empty());
    }
    while i > 0
        invariant
            i <= width <= 8,
            at + width <= bytes.len(),
            value == le_value(bytes@.subrange(at + i, at + width)),
        decreases i,
    {
        let ghost tail = bytes@.subrange(at + i, at + width);
        let ghost longer = bytes@.subrange(at + i - 1, at + width);
        proof {
            le_value_bound(longer);
            assert(longer.subrange(1, longer.len() as int) =~= tail);
            lemma_limit_grows(longer.len(), 8);
            le_limits();
        }
        value = bytes[at + i - 1] as u64 + 256 * value;
        i = i - 1;
    }
    value
}

proof fn lemma_limit_grows(a: nat, b: nat)
    requires
        a <= b,
    ensures
        0 < le_limit(a) <= le_limit(b),
    decreases b,
{
    if a < b {
        lemma_limit_grows(a, (b - 1) as nat);
    } else if a > 0 {
        lemma_limit_grows((a - 1) as nat, (a - 1) as nat);
    }
}

/// The text that bytes encode, as `String::from_utf8` of the standard library
/// decodes them: there is one exactly when the bytes are valid UTF-8.
#[verifier::external_body]
pub(crate) fn text_from_utf8(bytes: Vec<u8>) -> (r: Option<String>)
    ensures
        r is Some <==> valid_utf8(bytes@),
        r matches Some(text) ==> text@ == decode_utf8(bytes@),
{
    String::from_utf8(bytes).ok()
}

/// What a frame is expected to hold.
#[derive(Clone, Copy, Debug, PartialEq, Eq, Structural)]
pub struct EnvelopeSchema {
    pub magic: u32,
    pub schema_id: u32,
    pub major: u16,
    pub minor: u16,
}

/// Why a frame could not be opened.
#[derive(Clone, Copy, Debug, PartialEq, Eq, Structural)]
pub enum EnvelopeError {
    /// The document is larger than allowed.
    LimitExceeded,
    /// The document ends inside the frame or a field.
    Truncated,
    /// The document is of another kind.
    BadMagic,
    /// The document has another schema.
    SchemaMismatch,
    /// The document has another major version.
    MajorMismatch,
    /// The document is older than the schema.
    MinorOlder,
    /// The payload is not as long as the header says.
    LengthMismatch,
    /// The digest does not fit the content.
    ChecksumMismatch,
}

/// The header of a frame.
pub open spec fn header(schema: EnvelopeSchema, payload: nat) -> Seq<u8> {
    le_bytes(schema.magic as nat, 4) + le_bytes(schema.schema_id as nat, 4) + le_bytes(
        schema.major as nat,
        2,
    ) + le_bytes(schema.minor as nat, 2) + le_bytes(0, 4) + le_bytes(payload, 8)
}

/// The part of a document that its digest covers.
pub open spec fn covered(document: Seq<u8>) -> Seq<u8> {
    document.subrange(0, document.len() - DIGEST_LEN)
}

/// The payload of a document.
pub open spec fn payload_of(document: Seq<u8>) -> Seq<u8> {
    document.subrange(HEADER_LEN as int, document.len() - DIGEST_LEN)
}

/// The number in the bytes from one position up to another.
pub open spec fn number_at(document: Seq<u8>, from: int, to: int) -> nat {
    le_value(document.subrange(from, to))
}

/// Whether a document is a frame of this schema within a size, given the digest
/// of what it covers.
pub open spec fn frame_error(
    document: Seq<u8>,
    schema: EnvelopeSchema,
    max_bytes: usize,
    digest: Sha256Digest,
) -> Option<EnvelopeError> {
    if document.len() > max_bytes {
        Some(EnvelopeError::LimitExceeded)
    } else if document.len() < FRAME_LEN {
        Some(EnvelopeError::Truncated)
    } else if number_at(document, 0, 4) != schema.magic {
        Some(EnvelopeError::BadMagic)
    } else if number_at(document, 4, 8) != schema.schema_id {
        Some(EnvelopeError::SchemaMismatch)
    } else if number_at(document, 8, 10) != schema.major {
        Some(EnvelopeError::MajorMismatch)
    } else if number_at(document, 10, 12) < schema.minor {
        Some(EnvelopeError::MinorOlder)
    } else if number_at(document, 16, 24) != document.len() - FRAME_LEN {
        Some(EnvelopeError::LengthMismatch)
    } else if document.subrange(document.len() - DIGEST_LEN, document.len() as int)
        != digest.data() {
        Some(EnvelopeError::ChecksumMismatch)
    } else {
        None
    }
}

/// Checks that a document is a frame of a schema.
pub fn check_frame(
    document: &Vec<u8>,
    schema: EnvelopeSchema,
    max_bytes: usize,
    digest: &Sha256Digest,
) -> (r: Result<(), EnvelopeError>)
    ensures
        match frame_error(document@, schema, max_bytes, *digest) {
            Some(e) => r == Err::<(), EnvelopeError>(e),
            None => r is Ok,
        },
{
    let n: usize = document.len();
    if n > max_bytes {
        return Err(EnvelopeError::LimitExceeded);
    }
    if n < FRAME_LEN {
        return Err(EnvelopeError::Truncated);
    }
    if read_le(document, 0, 4) != schema.magic as u64 {
        return Err(EnvelopeError::BadMagic);
    }
    if read_le(document, 4, 4) != schema.schema_id as u64 {
        return Err(EnvelopeError::SchemaMismatch);
    }
    if read_le(document, 8, 2) != schema.major as u64 {
        return Err(EnvelopeError::MajorMismatch);
    }
    if read_le(document, 10, 2) < schema.minor as u64 {
        return Err(EnvelopeError::MinorOlder);
    }
    if read_le(document, 16, 8) != (n - FRAME_LEN) as u64 {
        return Err(EnvelopeError::LengthMismatch);
    }
    let start: usize = n - DIGEST_LEN;
    let mut i: usize = 0;
    while i < 32
        invariant
            i <= 32,
            start + 32 == n == document.len(),
            forall|j: int| 0 <= j < i ==> document@[start + j] == digest.bytes@[j],
            number_at(document@, 0, 4) == schema.magic,
            number_at(document@, 4, 8) == schema.schema_id,
            number_at(document@, 8, 10) == schema.major,
            number_at(document@, 10, 12) >= schema.minor,
            number_at(document@, 16, 24) == document@.len() - FRAME_LEN,
            FRAME_LEN <= document@.len() <= max_bytes,
        decreases 32 - i,
    {
        if document[start + i] != digest.bytes[i] {
            assert(document@.subrange(document@.len() - DIGEST_LEN, document@.len() as int)[i as int]
                != digest.data()[i as int]);
            return Err(EnvelopeError::ChecksumMismatch);
        }
        i = i + 1;
    }
    assert(document@.subrange(document@.len() - DIGEST_LEN, document@.len() as int)
        =~= digest.data());
    Ok(())
}

/// The digest stored at the end of a document.
pub fn stored_digest(document: &Vec<u8>) -> (r: Sha256Digest)
    requires
        document.len() >= DIGEST_LEN,
    ensures
        r.data() == document@.subrange(document@.len() - DIGEST_LEN, document@.len() as int),
{
    let mut bytes: [u8; 32] = [0u8; 32];
    let start: usize = document.len() - DIGEST_LEN;
    let mut i: usize = 0;
    while i < 32
        invariant
            i <= 32,
            start + 32 == document.len(),
            forall|j: int| 0 <= j < i ==> bytes@[j] == document@[start + j],
        decreases 32 - i,
    {
        bytes[i] = document[start + i];
        i = i + 1;
    }
    assert(bytes@ =~= document@.subrange(document@.len() - DIGEST_LEN, document@.len() as int));
    Sha256Digest { bytes }
}

/// Starts a document whose payload has this length.
pub fn put_header(out: &mut Vec<u8>, schema: EnvelopeSchema, payload: u64)
    ensures
        final(out)@ == old(out)@ + header(schema, payload as nat),
{
    let ghost before = out@;
    put_le(out, schema.magic as u64, 4);
    put_le(out, schema.schema_id as u64, 4);
    put_le(out, schema.major as u64, 2);
    put_le(out, schema.minor as u64, 2);
    put_le(out, 0, 4);
    put_le(out, payload, 8);
    assert(out@ =~= before + header(schema, payload as nat));
}

/// A frame made for a schema opens under that schema.
pub proof fn sealed_frame_opens(
    schema: EnvelopeSchema,
    payload: Seq<u8>,
    digest: Sha256Digest,
    max_bytes: usize,
)
    requires
        payload.len() + FRAME_LEN <= max_bytes,
        payload.len() <= u64::MAX,
    ensures
        ({
            let document = header(schema, payload.len()) + payload + digest.data();
            &&& frame_error(document, schema, max_bytes, digest) is None
            &&& payload_of(document) == payload
            &&& covered(document) == header(schema, payload.len()) + payload
            &&& number_at(document, 10, 12) == schema.minor
            &&& number_at(document, 12, 16) == 0
        }),
{
    broadcast use le_bytes_len;

    le_limits();
    let h = header(schema, payload.len());
    let document = h + payload + digest.data();
    assert(h.len() == 24);
    assert(document.subrange(0, 4) =~= le_bytes(schema.magic as nat, 4));
    assert(document.subrange(4, 8) =~= le_bytes(schema.schema_id as nat, 4));
    assert(document.subrange(8, 10) =~= le_bytes(schema.major as nat, 2));
    assert(document.subrange(10, 12) =~= le_bytes(schema.minor as nat, 2));
    assert(document.subrange(12, 16) =~= le_bytes(0, 4));
    assert(document.subrange(16, 24) =~= le_bytes(payload.len(), 8));
    le_round_trip(schema.magic as nat, 4);
    le_round_trip(schema.schema_id as nat, 4);
    le_round_trip(schema.major as nat, 2);
    le_round_trip(schema.minor as nat, 2);
    le_round_trip(0, 4);
    le_round_trip(payload.len(), 8);
    assert(document.subrange(document.len() - 32, document.len() as int) =~= digest.data());
    assert(payload_of(document) =~= payload);
    assert(covered(document) =~= h + payload);
}

/// The number in the `width` bytes at a position, if they are all there.
pub open spec fn field_at(d: Seq<u8>, i: int, width: int) -> Option<nat> {
    if 0 <= i && i + width <= d.len() {
        Some(le_value(d.subrange(i, i + width)))
    } else {
        None
    }
}

/// The digest at a position, if it is all there.
pub open spec fn digest_at(d: Seq<u8>, i: int) -> Option<Seq<u8>> {
    if 0 <= i && i + DIGEST_LEN <= d.len() {
        Some(d.subrange(i, i + DIGEST_LEN))
    } else {
        None
    }
}

/// The number in the `width` bytes at a position before `end`.
pub fn read_field(bytes: &Vec<u8>, end: usize, at: usize, width: usize) -> (r: Option<u64>)
    requires
        width <= 8,
        end <= bytes@.len(),
    ensures
        match field_at(bytes@.subrange(0, end as int), at as int, width as int) {
            Some(n) => r == Some(n as u64) && n <= u64::MAX && n < le_limit(width as nat),
            None => r is None,
        },
{
    if at > end || width > end - at {
        return None;
    }
    let ghost d = bytes@.subrange(0, end as int);
    proof {
        assert(d.subrange(at as int, at + width) =~= bytes@.subrange(at as int, at + width));
        le_value_bound(d.subrange(at as int, at + width));
        lemma_limit_grows(width as nat, 8);
        le_limits();
    }
    Some(read_le(bytes, at, width))
}

/// The digest at a position before `end`.
pub fn read_digest(bytes: &Vec<u8>, end: usize, at: usize) -> (r: Option<Sha256Digest>)
    requires
        end <= bytes@.len(),
    ensures
        match digest_at(bytes@.subrange(0, end as int), at as int) {
            Some(data) => r matches Some(digest) && digest.data() == data,
            None => r is None,
        },
{
    if at > end || DIGEST_LEN > end - at {
        return None;
    }
    let mut out: [u8; 32] = [0u8; 32];
    let mut i: usize = 0;
    while i < 32
        invariant
            i <= 32,
            at + 32 <= end <= bytes.len(),
            forall|j: int| 0 <= j < i ==> out@[j] == bytes@[at + j],
        decreases 32 - i,
    {
        out[i] = bytes[at + i];
        i = i + 1;
    }
    assert(out@ =~= bytes@.subrange(0, end as int).subrange(at as int, at + DIGEST_LEN));
    Some(Sha256Digest { bytes: out })
}

/// Whether some bytes stand at a position.
pub open spec fn holds(d: Seq<u8>, i: int, part: Seq<u8>) -> bool {
    0 <= i && i + part.len() <= d.len() && d.subrange(i, i + part.len()) == part
}

/// Parts that follow one another stand one behind the other.
pub proof fn holds_split(d: Seq<u8>, i: int, a: Seq<u8>, b: Seq<u8>)
    requires
        holds(d, i, a + b),
    ensures
        holds(d, i, a),
        holds(d, i + a.len(), b),
{
    let whole = d.subrange(i, i + (a + b).len());
    assert(d.subrange(i, i + a.len()) =~= whole.subrange(0, a.len() as int));
    assert(whole.subrange(0, a.len() as int) =~= a);
    assert(d.subrange(i + a.len(), i + a.len() + b.len()) =~= whole.subrange(
        a.len() as int,
        whole.len() as int,
    ));
    assert(whole.subrange(a.len() as int, whole.len() as int) =~= b);
}

/// A number written at a position is read there.
pub proof fn field_holds(d: Seq<u8>, i: int, n: nat, width: nat)
    requires
        holds(d, i, le_bytes(n, width)),
        n < le_limit(width),
    ensures
        field_at(d, i, width as int) == Some(n),
{
    le_bytes_len(n, width);
    le_round_trip(n, width);
}

} // verus!
