//! Writing a desk down as a checkpoint document.

use vstd::layout::size_of;
use vstd::prelude::*;
use vstd::utf8::encode_utf8;

use super::{
    poll, schema, schema_spec, was_canceled, CheckpointError, MAX_CHECKPOINT_BYTES, NOWHERE,
};
use crate::capture::{byte_len, text_len};
use crate::envelope::{
    header, le_bytes, put_header, put_le, put_raw, stored_digest, Sha256Digest, DIGEST_LEN,
    FRAME_LEN,
};
use crate::identity::{ArenaOwnerId, ByteRange};
use crate::memory::wide_size;
use crate::model::group_views;
use crate::scalar::Point;
use crate::ui::reading_panes::desk::{
    source_bytes_from, source_from, BookmarkModel, DeskError, DeskLocation, DeskModel, DeskPaneId,
    DeskState, DeskStateModel, ReadingDesk, RetainedModel,
};
use crate::ui::reading_panes::PaneModel;

verus! {

broadcast use group_views;

/// A number as a document holds it.
pub open spec fn number(n: u64) -> Seq<u8> {
    le_bytes(n as nat, 8)
}

/// Bytes as a document holds them: their length precedes them.
pub open spec fn field(bytes: Seq<u8>) -> Seq<u8> {
    le_bytes(bytes.len(), 8) + bytes
}

/// A text as a document holds it.
pub open spec fn text_field(text: Seq<char>) -> Seq<u8> {
    field(encode_utf8(text))
}

/// A flag as a document holds it.
pub open spec fn flag(value: bool) -> Seq<u8> {
    seq![if value { 1u8 } else { 0u8 }]
}

/// A pair of coordinates as a document holds it.
pub open spec fn point_bytes(point: Point) -> Seq<u8> {
    le_bytes(point.0.bits as nat, 4) + le_bytes(point.1.bits as nat, 4)
}

/// An optional range as a document holds it.
pub open spec fn selection_bytes(selection: Option<ByteRange>) -> Seq<u8> {
    match selection {
        None => flag(false),
        Some(range) => flag(true) + number(range.start) + number(range.end),
    }
}

/// A location as a document holds it, where its capture is retained.
pub open spec fn location_bytes(sources: Seq<RetainedModel>, at: DeskLocation) -> Result<
    Seq<u8>,
    CheckpointError,
> {
    match source_from(sources, at.file, at.revision, 0) {
        None => Err(CheckpointError::InvalidDocument),
        Some(k) => Ok(
            number(k as u64) + number(at.offset) + selection_bytes(at.selection) + number(
                at.preferred_pane.value,
            ),
        ),
    }
}

/// A retained capture as a document holds it.
pub open spec fn source_record(source: RetainedModel) -> Seq<u8> {
    number(source.capture.file.value) + number(source.capture.revision.value) + text_field(
        source.capture.logical_path,
    ) + field(source.capture.bytes)
}

/// The retained captures from `i` on.
pub open spec fn source_records(sources: Seq<RetainedModel>, i: int) -> Seq<u8>
    decreases sources.len() - i,
{
    if i < 0 || i >= sources.len() {
        Seq::empty()
    } else {
        source_record(sources[i]) + source_records(sources, i + 1)
    }
}

/// The number, pin and layout of a pane.
pub open spec fn pane_head(pane: PaneModel) -> Seq<u8> {
    number(pane.id) + flag(pane.is_pinned) + point_bytes(pane.position) + point_bytes(pane.size)
        + point_bytes(pane.scroll_offset)
}

/// A pane as a document holds it.
pub open spec fn pane_record(state: DeskStateModel, owner: ArenaOwnerId, pane: PaneModel) -> Result<
    Seq<u8>,
    CheckpointError,
> {
    match state.location(owner, DeskPaneId { owner, value: pane.id }) {
        Err(e) => Err(CheckpointError::Desk(e)),
        Ok(at) => match location_bytes(state.sources, at) {
            Err(e) => Err(e),
            Ok(place) => Ok(pane_head(pane) + place),
        },
    }
}

/// One result before another.
pub open spec fn chain(
    first: Result<Seq<u8>, CheckpointError>,
    rest: Result<Seq<u8>, CheckpointError>,
) -> Result<Seq<u8>, CheckpointError> {
    match first {
        Err(e) => Err(e),
        Ok(a) => match rest {
            Err(e) => Err(e),
            Ok(b) => Ok(a + b),
        },
    }
}

/// The panes from `i` on.
pub open spec fn pane_records(state: DeskStateModel, owner: ArenaOwnerId, i: int) -> Result<
    Seq<u8>,
    CheckpointError,
>
    decreases state.panes.panes.len() - i,
{
    if i < 0 || i >= state.panes.panes.len() {
        Ok(Seq::empty())
    } else {
        chain(
            pane_record(state, owner, state.panes.panes[i]),
            pane_records(state, owner, i + 1),
        )
    }
}

/// The visits from `i` on.
pub open spec fn visit_records(state: DeskStateModel, i: int) -> Result<Seq<u8>, CheckpointError>
    decreases state.history.len() - i,
{
    if i < 0 || i >= state.history.len() {
        Ok(Seq::empty())
    } else {
        chain(location_bytes(state.sources, state.history[i]), visit_records(state, i + 1))
    }
}

/// A bookmark as a document holds it.
pub open spec fn mark_record(sources: Seq<RetainedModel>, mark: BookmarkModel) -> Result<
    Seq<u8>,
    CheckpointError,
> {
    chain(Ok(text_field(mark.label)), location_bytes(sources, mark.location))
}

/// The bookmarks from `i` on.
pub open spec fn mark_records(state: DeskStateModel, i: int) -> Result<Seq<u8>, CheckpointError>
    decreases state.bookmarks.len() - i,
{
    if i < 0 || i >= state.bookmarks.len() {
        Ok(Seq::empty())
    } else {
        chain(mark_record(state.sources, state.bookmarks[i]), mark_records(state, i + 1))
    }
}

/// The counts, the cursor and the active pane.
pub open spec fn plan_bytes(state: DeskStateModel) -> Seq<u8> {
    number(state.sources.len() as u64) + number(state.panes.panes.len() as u64) + number(
        state.history.len() as u64,
    ) + number(state.bookmarks.len() as u64) + number(
        match state.cursor {
            Some(i) => i as u64,
            None => NOWHERE,
        },
    ) + number(
        match state.panes.active {
            Some(id) => id,
            None => 0,
        },
    )
}

/// The payload of a checkpoint.
pub open spec fn payload(state: DeskStateModel, owner: ArenaOwnerId) -> Result<
    Seq<u8>,
    CheckpointError,
> {
    chain(
        Ok(plan_bytes(state) + source_records(state.sources, 0)),
        chain(
            pane_records(state, owner, 0),
            chain(visit_records(state, 0), mark_records(state, 0)),
        ),
    )
}

/// Bytes of the retained captures' labels, from `i` on.
pub open spec fn path_bytes_from(sources: Seq<RetainedModel>, i: int) -> nat
    decreases sources.len() - i,
{
    if i < 0 || i >= sources.len() {
        0
    } else {
        text_len(sources[i].capture.logical_path) + path_bytes_from(sources, i + 1)
    }
}

/// Bytes of the bookmarks' labels, from `i` on.
pub open spec fn note_bytes_from(bookmarks: Seq<BookmarkModel>, i: int) -> nat
    decreases bookmarks.len() - i,
{
    if i < 0 || i >= bookmarks.len() {
        0
    } else {
        text_len(bookmarks[i].label) + note_bytes_from(bookmarks, i + 1)
    }
}

/// An upper bound on a checkpoint's size.
pub open spec fn size_bound(state: DeskStateModel) -> nat {
    source_bytes_from(state.sources, 0) + path_bytes_from(state.sources, 0) + note_bytes_from(
        state.bookmarks,
        0,
    ) + FRAME_LEN as nat + 128 + state.sources.len() * 64 + state.panes.panes.len() * 128
        + state.history.len() * 64 + state.bookmarks.len() * 64
}

/// Bytes charged for writing a checkpoint.
pub open spec fn export_charge(state: DeskStateModel) -> nat {
    4 * size_bound(state) + size_of::<DeskCheckpoint>()
}

impl DeskModel {
    /// What writing a checkpoint gives when nothing is canceled, given whether
    /// memory was granted and the digest of the written bytes.
    pub open spec fn checkpoint(self, expected: u64, granted: bool, digest: Sha256Digest) -> Result<
        (Seq<u8>, nat),
        CheckpointError,
    > {
        if expected != self.state.revision {
            Err(CheckpointError::Desk(DeskError::StaleRevision))
        } else if size_bound(self.state) > MAX_CHECKPOINT_BYTES {
            Err(CheckpointError::Limit)
        } else if export_charge(self.state) > u64::MAX {
            Err(CheckpointError::Limit)
        } else if !granted {
            Err(CheckpointError::Desk(DeskError::ResourceDenied))
        } else {
            match payload(self.state, self.owner) {
                Err(e) => Err(e),
                Ok(body) => if body.len() + FRAME_LEN > size_bound(self.state) {
                    Err(CheckpointError::Limit)
                } else {
                    Ok(
                        (
                            header(schema_spec(), body.len()) + body + digest.data(),
                            source_bytes_from(self.state.sources, 0),
                        ),
                    )
                },
            }
        }
    }
}

/// A finished checkpoint document. No source is silently omitted to meet a byte
/// budget. Contains source payloads and personal labels; an integrity digest is
/// not encryption or authorization.
pub struct DeskCheckpoint {
    bytes: Vec<u8>,
    source_bytes: u64,
}

impl View for DeskCheckpoint {
    type V = (Seq<u8>, nat);

    closed spec fn view(&self) -> (Seq<u8>, nat) {
        (self.bytes@, self.source_bytes as nat)
    }
}

/// Whether writing a checkpoint of a desk may come to this: it was told to stop, or
/// the host granted memory or not, hashed what was written, and the document is the
/// one that follows.
pub open spec fn is_checkpoint<
    A: FnOnce(u64) -> bool,
    H: FnOnce(&Vec<u8>, usize) -> Sha256Digest,
    C: FnMut() -> bool,
>(
    desk: DeskModel,
    expected: u64,
    reserve: A,
    hash: H,
    canceled: C,
    r: Result<DeskCheckpoint, CheckpointError>,
) -> bool {
    was_canceled(r, canceled) || exists|granted: bool, digest: Sha256Digest|
        #![trigger desk.checkpoint(expected, granted, digest)]
        {
            let result = desk.checkpoint(expected, granted, digest);
            &&& expected == desk.state.revision && size_bound(desk.state) <= MAX_CHECKPOINT_BYTES
                && export_charge(desk.state) <= u64::MAX ==> call_ensures(
                reserve,
                (export_charge(desk.state) as u64,),
                granted,
            )
            &&& result matches Ok((document, _)) ==> hashed_to(
                hash,
                document.subrange(0, document.len() - DIGEST_LEN),
                digest,
            )
            &&& match result {
                Ok(found) => r matches Ok(checkpoint) && checkpoint@ == found,
                Err(e) => r matches Err(f) && f == e,
            }
        }
}

/// Whether a host gave bytes this digest.
pub open spec fn hashed_to<H: FnOnce(&Vec<u8>, usize) -> Sha256Digest>(
    hash: H,
    bytes: Seq<u8>,
    digest: Sha256Digest,
) -> bool {
    exists|written: &Vec<u8>|
        #![trigger call_ensures(hash, (written, written@.len() as usize), digest)]
        written@ == bytes && call_ensures(hash, (written, written@.len() as usize), digest)
}

impl DeskCheckpoint {
    pub fn bytes(&self) -> (r: &Vec<u8>)
        ensures
            r@ == self@.0,
    {
        &self.bytes
    }

    pub fn source_bytes(&self) -> (r: u64)
        ensures
            r == self@.1,
    {
        self.source_bytes
    }

    /// The digest at the end of the document.
    pub fn digest(&self) -> (r: Sha256Digest)
        requires
            self@.0.len() >= DIGEST_LEN,
        ensures
            r.data() == self@.0.subrange(self@.0.len() - DIGEST_LEN, self@.0.len() as int),
    {
        stored_digest(&self.bytes)
    }
}

fn put_text(out: &mut Vec<u8>, text: &String)
    ensures
        final(out)@ == old(out)@ + text_field(text@),
{
    let ghost before = out@;
    let bytes = text.as_str().as_bytes();
    put_le(out, bytes.len() as u64, 8);
    put_raw(out, bytes);
    assert(out@ =~= before + text_field(text@));
}

fn put_flag(out: &mut Vec<u8>, value: bool)
    ensures
        final(out)@ == old(out)@ + flag(value),
{
    let ghost before = out@;
    out.push(
        if value {
            1
        } else {
            0
        },
    );
    assert(out@ =~= before + flag(value));
}

fn put_point(out: &mut Vec<u8>, point: Point)
    ensures
        final(out)@ == old(out)@ + point_bytes(point),
{
    let ghost before = out@;
    put_le(out, point.0.bits as u64, 4);
    put_le(out, point.1.bits as u64, 4);
    assert(out@ =~= before + point_bytes(point));
}

fn put_location(out: &mut Vec<u8>, state: &DeskState, at: DeskLocation) -> (r: Result<
    (),
    CheckpointError,
>)
    ensures
        match location_bytes(state@.sources, at) {
            Ok(bytes) => r is Ok && final(out)@ == old(out)@ + bytes,
            Err(e) => r == Err::<(), CheckpointError>(e),
        },
{
    let ghost before = out@;
    let k: usize = match state.source_index(at.file, at.revision) {
        Some(k) => k,
        None => {
            return Err(CheckpointError::InvalidDocument);
        },
    };
    put_le(out, k as u64, 8);
    put_le(out, at.offset, 8);
    match at.selection {
        None => put_flag(out, false),
        Some(range) => {
            put_flag(out, true);
            put_le(out, range.start, 8);
            put_le(out, range.end, 8);
        },
    }
    put_le(out, at.preferred_pane.value, 8);
    assert(out@ =~= before + location_bytes(state@.sources, at)->Ok_0);
    Ok(())
}

impl ReadingDesk {
    fn put_sources<C: FnMut() -> bool>(&self, out: &mut Vec<u8>, canceled: &mut C) -> (r: Result<
        (),
        CheckpointError,
    >)
        requires
            call_requires(*old(canceled), ()),
        ensures
            *final(canceled) == *old(canceled),
            match r {
                Ok(()) => final(out)@ == old(out)@ + source_records(self@.state.sources, 0),
                Err(e) => was_canceled(r, *old(canceled)),
            },
    {
        let ghost sources = self@.state.sources;
        let ghost all = out@ + source_records(sources, 0);
        let mut k: usize = 0;
        while k < self.state.sources.len()
            invariant
                k <= self.state.sources.len(),
                sources == self@.state.sources,
                *canceled == *old(canceled),
                call_requires(*canceled, ()),
                all == out@ + source_records(sources, k as int),
            decreases self.state.sources.len() - k,
        {
            match poll(canceled) {
                Ok(()) => {},
                Err(e) => {
                    return Err(e);
                },
            }
            let capture = &self.state.sources[k].capture;
            assert(sources[k as int] == self.state.sources@[k as int]@);
            let ghost before = out@;
            put_le(out, capture.file.value, 8);
            put_le(out, capture.revision.value, 8);
            put_text(out, &capture.logical_path);
            put_le(out, capture.bytes.len() as u64, 8);
            put_raw(out, capture.bytes.as_slice());
            assert(out@ =~= before + source_record(sources[k as int]));
            k = k + 1;
            assert(all =~= out@ + source_records(sources, k as int));
        }
        assert(all =~= out@);
        Ok(())
    }

    fn put_pane(&self, out: &mut Vec<u8>, k: usize) -> (r: Result<(), CheckpointError>)
        requires
            k < self@.state.panes.panes.len(),
        ensures
            match pane_record(self@.state, self@.owner, self@.state.panes.panes[k as int]) {
                Ok(bytes) => r is Ok && final(out)@ == old(out)@ + bytes,
                Err(e) => r == Err::<(), CheckpointError>(e),
            },
    {
        let pane = &self.state.panes.iter()[k];
        assert(pane@ == self@.state.panes.panes[k as int]);
        let at: DeskLocation = match self.state.location(
            self.owner,
            DeskPaneId { owner: self.owner, value: pane.id },
        ) {
            Ok(at) => at,
            Err(e) => {
                return Err(CheckpointError::Desk(e));
            },
        };
        let ghost before = out@;
        put_le(out, pane.id, 8);
        put_flag(out, pane.is_pinned);
        put_point(out, pane.position);
        put_point(out, pane.size);
        put_point(out, pane.scroll_offset);
        assert(out@ =~= before + pane_head(pane@));
        let ghost middle = out@;
        match put_location(out, &self.state, at) {
            Ok(()) => {
                assert(out@ =~= before + pane_record(self@.state, self@.owner, pane@)->Ok_0);
                Ok(())
            },
            Err(e) => Err(e),
        }
    }

    fn put_panes<C: FnMut() -> bool>(&self, out: &mut Vec<u8>, canceled: &mut C) -> (r: Result<
        (),
        CheckpointError,
    >)
        requires
            call_requires(*old(canceled), ()),
        ensures
            *final(canceled) == *old(canceled),
            was_canceled(r, *old(canceled)) || match pane_records(self@.state, self@.owner, 0) {
                Ok(bytes) => r is Ok && final(out)@ == old(out)@ + bytes,
                Err(e) => r == Err::<(), CheckpointError>(e),
            },
    {
        let ghost all = chain(Ok(out@), pane_records(self@.state, self@.owner, 0));
        let mut k: usize = 0;
        while k < self.state.panes.len()
            invariant
                k <= self@.state.panes.panes.len(),
                *canceled == *old(canceled),
                call_requires(*canceled, ()),
                all == chain(Ok(old(out)@), pane_records(self@.state, self@.owner, 0)),
                all == chain(Ok(out@), pane_records(self@.state, self@.owner, k as int)),
            decreases self@.state.panes.panes.len() - k,
        {
            match poll(canceled) {
                Ok(()) => {},
                Err(e) => {
                    return Err(e);
                },
            }
            let ghost before = out@;
            match self.put_pane(out, k) {
                Ok(()) => {},
                Err(e) => {
                    return Err(e);
                },
            }
            proof {
                lemma_chain(
                    before,
                    pane_record(self@.state, self@.owner, self@.state.panes.panes[k as int]),
                    pane_records(self@.state, self@.owner, k + 1),
                );
            }
            k = k + 1;
        }
        assert(out@ + Seq::<u8>::empty() =~= out@);
        Ok(())
    }

    fn put_visits(&self, out: &mut Vec<u8>) -> (r: Result<(), CheckpointError>)
        ensures
            match visit_records(self@.state, 0) {
                Ok(bytes) => r is Ok && final(out)@ == old(out)@ + bytes,
                Err(e) => r == Err::<(), CheckpointError>(e),
            },
    {
        let ghost all = chain(Ok(out@), visit_records(self@.state, 0));
        let mut k: usize = 0;
        while k < self.state.history.len()
            invariant
                k <= self@.state.history.len(),
                all == chain(Ok(old(out)@), visit_records(self@.state, 0)),
                all == chain(Ok(out@), visit_records(self@.state, k as int)),
            decreases self@.state.history.len() - k,
        {
            let ghost before = out@;
            match put_location(out, &self.state, self.state.history[k]) {
                Ok(()) => {},
                Err(e) => {
                    return Err(e);
                },
            }
            proof {
                lemma_chain(
                    before,
                    location_bytes(self@.state.sources, self@.state.history[k as int]),
                    visit_records(self@.state, k + 1),
                );
            }
            k = k + 1;
        }
        assert(out@ + Seq::<u8>::empty() =~= out@);
        Ok(())
    }

    fn put_marks(&self, out: &mut Vec<u8>) -> (r: Result<(), CheckpointError>)
        ensures
            match mark_records(self@.state, 0) {
                Ok(bytes) => r is Ok && final(out)@ == old(out)@ + bytes,
                Err(e) => r == Err::<(), CheckpointError>(e),
            },
    {
        let ghost all = chain(Ok(out@), mark_records(self@.state, 0));
        let mut k: usize = 0;
        while k < self.state.bookmarks.len()
            invariant
                k <= self@.state.bookmarks.len(),
                all == chain(Ok(old(out)@), mark_records(self@.state, 0)),
                all == chain(Ok(out@), mark_records(self@.state, k as int)),
            decreases self@.state.bookmarks.len() - k,
        {
            let ghost before = out@;
            let mark = &self.state.bookmarks[k];
            assert(self@.state.bookmarks[k as int] == mark@);
            put_text(out, &mark.label);
            let ghost middle = out@;
            match put_location(out, &self.state, mark.location) {
                Ok(()) => {},
                Err(e) => {
                    return Err(e);
                },
            }
            proof {
                let record = mark_record(self@.state.sources, mark@);
                assert(out@ =~= before + record->Ok_0);
                lemma_chain(before, record, mark_records(self@.state, k + 1));
            }
            k = k + 1;
        }
        assert(out@ + Seq::<u8>::empty() =~= out@);
        Ok(())
    }

    /// The size bound of the desk's checkpoint, exact up to the limit.
    fn bound(&self) -> (r: u128)
        requires
            self@.wf(),
        ensures
            r <= MAX_CHECKPOINT_BYTES || size_bound(self@.state) <= MAX_CHECKPOINT_BYTES ==> r
                == size_bound(self@.state),
    {
        let ghost state = self@.state;
        let mut labels: u128 = 0;
        let mut k: usize = 0;
        while k < self.state.sources.len() && labels <= MAX_CHECKPOINT_BYTES as u128
            invariant
                k <= self.state.sources.len(),
                state == self@.state,
                labels <= MAX_CHECKPOINT_BYTES + u64::MAX,
                labels + path_bytes_from(state.sources, k as int) == path_bytes_from(
                    state.sources,
                    0,
                ),
            decreases self.state.sources.len() - k,
        {
            assert(state.sources[k as int] == self.state.sources@[k as int]@);
            labels = labels + byte_len(&self.state.sources[k].capture.logical_path) as u128;
            k = k + 1;
        }
        let mut notes: u128 = 0;
        let mut j: usize = 0;
        while j < self.state.bookmarks.len() && notes <= MAX_CHECKPOINT_BYTES as u128
            invariant
                j <= self.state.bookmarks.len(),
                state == self@.state,
                notes <= MAX_CHECKPOINT_BYTES + u64::MAX,
                notes + note_bytes_from(state.bookmarks, j as int) == note_bytes_from(
                    state.bookmarks,
                    0,
                ),
            decreases self.state.bookmarks.len() - j,
        {
            assert(state.bookmarks[j as int] == self.state.bookmarks@[j as int]@);
            notes = notes + byte_len(&self.state.bookmarks[j].label) as u128;
            j = j + 1;
        }
        self.retained_source_bytes() as u128 + labels + notes + FRAME_LEN as u128 + 128
            + self.state.sources.len() as u128 * 64 + self.state.panes.len() as u128 * 128
            + self.state.history.len() as u128 * 64 + self.state.bookmarks.len() as u128 * 64
    }

    /// Capture the complete current workspace of readers without I/O. Output
    /// order is deterministic for one state; transient query results are not
    /// serialized as authoritative future search results.
    ///
    /// `hash` gives the digest of the first bytes of a document.
    pub fn checkpoint<
        A: FnOnce(u64) -> bool,
        H: FnOnce(&Vec<u8>, usize) -> Sha256Digest,
        C: FnMut() -> bool,
    >(&self, expected: u64, reserve: A, hash: H, mut canceled: C) -> (r: Result<
        DeskCheckpoint,
        CheckpointError,
    >)
        requires
            self@.wf(),
            forall|charge: u64| call_requires(reserve, (charge,)),
            forall|document: &Vec<u8>, n: usize|
                n <= document@.len() ==> call_requires(hash, (document, n)),
            call_requires(canceled, ()),
        ensures
            is_checkpoint(self@, expected, reserve, hash, canceled, r),
    {
        let zero = Sha256Digest { bytes: [0u8; 32] };
        if expected != self.state.revision {
            assert(self@.checkpoint(expected, false, zero) is Err);
            return Err(CheckpointError::Desk(DeskError::StaleRevision));
        }
        match poll(&mut canceled) {
            Ok(()) => {},
            Err(e) => {
                return Err(e);
            },
        }
        let bound: u128 = self.bound();
        if bound > MAX_CHECKPOINT_BYTES as u128 {
            assert(self@.checkpoint(expected, false, zero) is Err);
            return Err(CheckpointError::Limit);
        }
        let charge: u128 = 4 * bound + wide_size::<DeskCheckpoint>();
        if charge > u64::MAX as u128 {
            assert(self@.checkpoint(expected, false, zero) is Err);
            return Err(CheckpointError::Limit);
        }
        if !reserve(charge as u64) {
            assert(self@.checkpoint(expected, false, zero) is Err);
            return Err(CheckpointError::Desk(DeskError::ResourceDenied));
        }
        let ghost state = self@.state;
        let mut body: Vec<u8> = Vec::new();
        put_le(&mut body, self.state.sources.len() as u64, 8);
        put_le(&mut body, self.state.panes.len() as u64, 8);
        put_le(&mut body, self.state.history.len() as u64, 8);
        put_le(&mut body, self.state.bookmarks.len() as u64, 8);
        let cursor: u64 = match self.state.cursor {
            Some(i) => i as u64,
            None => NOWHERE,
        };
        put_le(&mut body, cursor, 8);
        let active: u64 = match self.state.panes.active_pane_id() {
            Some(id) => id,
            None => 0,
        };
        put_le(&mut body, active, 8);
        assert(body@ =~= plan_bytes(state));
        match self.put_sources(&mut body, &mut canceled) {
            Ok(()) => {},
            Err(e) => {
                return Err(e);
            },
        }
        let ghost first = body@;
        match self.put_panes(&mut body, &mut canceled) {
            Ok(()) => {},
            Err(e) => {
                assert(was_canceled(Err::<(), CheckpointError>(e), canceled) || self@.checkpoint(
                    expected,
                    true,
                    zero,
                ) == Err::<(Seq<u8>, nat), CheckpointError>(e));
                return Err(e);
            },
        }
        match self.put_visits(&mut body) {
            Ok(()) => {},
            Err(e) => {
                assert(self@.checkpoint(expected, true, zero) is Err);
                return Err(e);
            },
        }
        match self.put_marks(&mut body) {
            Ok(()) => {},
            Err(e) => {
                assert(self@.checkpoint(expected, true, zero) is Err);
                return Err(e);
            },
        }
        assert(body@ =~= payload(state, self@.owner)->Ok_0);
        match poll(&mut canceled) {
            Ok(()) => {},
            Err(e) => {
                return Err(e);
            },
        }
        if body.len() as u128 + FRAME_LEN as u128 > bound {
            assert(self@.checkpoint(expected, true, zero) is Err);
            return Err(CheckpointError::Limit);
        }
        let mut bytes: Vec<u8> = Vec::new();
        put_header(&mut bytes, schema(), body.len() as u64);
        put_raw(&mut bytes, body.as_slice());
        let n: usize = bytes.len();
        let digest = hash(&bytes, n);
        let ghost written = bytes;
        put_raw(&mut bytes, digest.bytes.as_slice());
        match poll(&mut canceled) {
            Ok(()) => {},
            Err(e) => {
                return Err(e);
            },
        }
        let r = DeskCheckpoint { bytes, source_bytes: self.retained_source_bytes() };
        proof {
            let document = header(schema_spec(), body@.len()) + body@ + digest.data();
            assert(r@.0 =~= document);
            assert(written@ =~= document.subrange(0, document.len() - DIGEST_LEN));
            assert(self@.checkpoint(expected, true, digest) == Ok::<(Seq<u8>, nat), CheckpointError>(
                r@,
            ));
            assert(call_ensures(hash, (&written, written@.len() as usize), digest));
        }
        Ok(r)
    }
}

proof fn lemma_chain(
    before: Seq<u8>,
    first: Result<Seq<u8>, CheckpointError>,
    rest: Result<Seq<u8>, CheckpointError>,
)
    requires
        first is Ok,
    ensures
        chain(Ok(before), chain(first, rest)) == chain(Ok(before + first->Ok_0), rest),
{
    if rest is Ok {
        assert(before + (first->Ok_0 + rest->Ok_0) =~= (before + first->Ok_0) + rest->Ok_0);
    }
}

} // verus!
