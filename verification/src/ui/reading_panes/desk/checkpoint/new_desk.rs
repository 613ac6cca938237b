//! What a checkpoint of a desk gives to a new desk, and what it depends on.
use vstd::prelude::*;

use super::encoding::{hashed_to, is_checkpoint, payload, DeskCheckpoint};
use super::round_trip::{
    carried, kept_whole, lemma_fresh, lemma_fresh_index, pane_kept, pane_location, place_of,
    record_models, restoring_gives_back_what_was_kept, same_contents, told_apart,
};
use super::upkeep::{apart, desk_whole, lemma_first_pane};
use super::{
    import_charge, is_restore, rebased, restored_with, schema_spec, CheckpointError, RestoredDesk,
};
use crate::envelope::{header, Sha256Digest, DIGEST_LEN};
use crate::identity::ArenaOwnerId;
use crate::ui::reading_panes::desk::retention::lemma_source_found;
use crate::ui::reading_panes::desk::{
    offset_from, source_bytes_from, DeskModel, DeskPaneId, DeskStateModel, RetainedModel,
};

verus! {

/// Two desks show the same in a pane: the same bytes at the same place, under
/// the same layout.
pub open spec fn shown_alike(
    a: DeskStateModel,
    home_a: ArenaOwnerId,
    b: DeskStateModel,
    home_b: ArenaOwnerId,
    k: int,
) -> bool {
    let one = a.panes.panes[k];
    let other = b.panes.panes[k];
    let at = pane_location(a, home_a, k);
    let there = pane_location(b, home_b, k);
    &&& pane_kept(a, home_a, one)
    &&& pane_kept(b, home_b, other)
    &&& other.is_pinned == one.is_pinned
    &&& other.position == one.position
    &&& other.size == one.size
    &&& other.scroll_offset == one.scroll_offset
    &&& other.selection == one.selection
    &&& there.offset == at.offset
    &&& there.selection == at.selection
    &&& b.sources[place_of(b.sources, there)].capture.bytes == a.sources[place_of(
        a.sources,
        at,
    )].capture.bytes
}

proof fn lemma_offset_at(offsets: Seq<(u64, u64)>, k: int, i: int)
    requires
        0 <= i <= k < offsets.len(),
        forall|j: int| 0 <= j < offsets.len() ==> (#[trigger] offsets[j]).0 == 1 + j,
    ensures
        offset_from(offsets, (1 + k) as u64, i) == Some(k),
    decreases k - i,
{
    assert(offsets[k].0 == 1 + k);
    if i < k {
        assert(offsets[i].0 == 1 + i);
        lemma_offset_at(offsets, k, i + 1);
    }
}

proof fn lemma_same_bytes(a: Seq<RetainedModel>, b: Seq<RetainedModel>, i: int)
    requires
        same_contents(a, b),
        0 <= i <= a.len(),
    ensures
        source_bytes_from(a, i) == source_bytes_from(b, i),
    decreases a.len() - i,
{
    if i < a.len() {
        assert(a[i].capture.bytes == b[i].capture.bytes);
        lemma_same_bytes(a, b, i + 1);
    }
}

/// A pane that was carried over stands where it stood.
proof fn lemma_carried_pane(
    state: DeskStateModel,
    owner: ArenaOwnerId,
    home: ArenaOwnerId,
    fresh: Seq<RetainedModel>,
    revision: u64,
    k: int,
)
    requires
        same_contents(state.sources, fresh),
        told_apart(fresh),
        state.panes.panes.len() <= 8,
        0 <= k < state.panes.panes.len(),
        pane_kept(state, owner, state.panes.panes[k]),
        apart(state.panes.panes),
    ensures
        shown_alike(
            state,
            owner,
            carried(state, owner, home, fresh, revision, 1, 1),
            home,
            k,
        ),
{
    let next = carried(state, owner, home, fresh, revision, 1, 1);
    let at = pane_location(state, owner, k);
    let place = place_of(state.sources, at);
    lemma_first_pane(state.panes.panes, k, 0);
    assert(apart(next.panes.panes));
    lemma_first_pane(next.panes.panes, k, 0);
    lemma_offset_at(next.offsets, k, 0);
    assert(next.panes.panes[k].id == 1 + k);
    lemma_source_found(state.sources, at.file, at.revision, 0);
    assert(0 <= place < state.sources.len());
    lemma_fresh_index(fresh, place, 0);
    assert(state.sources[place].capture.bytes == fresh[place].capture.bytes);
    let there = next.location(home, DeskPaneId { owner: home, value: next.panes.panes[k].id });
    assert(there matches Ok(found) && found == pane_location(next, home, k));
}

/// A desk holds what another held: the panes with their pins, layout, positions,
/// selections and bytes, the history and the place in it, the bookmarks' labels in
/// order, and as many captures with as many bytes.
pub open spec fn restored_alike(source: DeskModel, after: DeskModel) -> bool {
    let was = source.state;
    let now = after.state;
    &&& now.panes.panes.len() == was.panes.panes.len()
    &&& forall|k: int|
        0 <= k < was.panes.panes.len() ==> #[trigger] shown_alike(
            was,
            source.owner,
            now,
            after.owner,
            k,
        )
    &&& now.history.len() == was.history.len()
    &&& now.cursor == was.cursor
    &&& now.bookmarks.len() == was.bookmarks.len()
    &&& forall|k: int|
        0 <= k < was.bookmarks.len() ==> (#[trigger] now.bookmarks[k]).label
            == was.bookmarks[k].label
    &&& now.sources.len() == was.sources.len()
    &&& source_bytes_from(now.sources, 0) == source_bytes_from(was.sources, 0)
}

/// A checkpoint of a desk restores into a new desk with the same limits, whoever
/// owns it, and gives everything back.
pub proof fn checkpoints_restore_into_new_desks(
    source: DeskModel,
    owner: ArenaOwnerId,
    taken: u64,
    digest: Sha256Digest,
    allocation: u64,
)
    requires
        desk_whole(source),
        source.checkpoint(taken, true, digest) is Ok,
        import_charge(record_models(source.state.sources)) <= u64::MAX,
    ensures
        ({
            let document = source.checkpoint(taken, true, digest)->Ok_0.0;
            let fresh = DeskModel::fresh(owner, source.limits);
            let (after, r) = fresh.restore(0, 1, document, allocation, digest, true);
            r is Ok && restored_alike(source, after)
        }),
{
    reveal(kept_whole);
    let target = DeskModel::fresh(owner, source.limits);
    let was = source.state;
    restoring_gives_back_what_was_kept(source, target, taken, digest, 0, 1, allocation);
    let fresh = rebased(record_models(was.sources), owner, 1, allocation);
    lemma_fresh(was.sources, owner, 1, allocation);
    lemma_same_bytes(was.sources, fresh, 0);
    let now = carried(was, source.owner, owner, fresh, 1, 1, 1);
    assert forall|k: int| 0 <= k < was.panes.panes.len() implies #[trigger] shown_alike(
        was,
        source.owner,
        now,
        owner,
        k,
    ) by {
        assert(pane_kept(was, source.owner, was.panes.panes[k]));
        lemma_carried_pane(was, source.owner, owner, fresh, 1, k);
    }
}

/// Two checkpoints of one desk differ in nothing but the digest behind them, so
/// a host that hashes alike gets the same document twice.
pub proof fn checkpoints_of_one_desk_are_equal(
    desk: DeskModel,
    taken: u64,
    one: Sha256Digest,
    other: Sha256Digest,
)
    requires
        desk.checkpoint(taken, true, one) is Ok,
    ensures
        desk.checkpoint(taken, true, other) is Ok,
        ({
            let (a, bytes_a) = desk.checkpoint(taken, true, one)->Ok_0;
            let (b, bytes_b) = desk.checkpoint(taken, true, other)->Ok_0;
            &&& a.len() == b.len()
            &&& bytes_a == bytes_b
            &&& a.subrange(0, a.len() - DIGEST_LEN) == b.subrange(0, b.len() - DIGEST_LEN)
            &&& a.subrange(a.len() - DIGEST_LEN, a.len() as int) == one.data()
            &&& b.subrange(b.len() - DIGEST_LEN, b.len() as int) == other.data()
            &&& one.data() == other.data() ==> a == b
        }),
{
    let body = payload(desk.state, desk.owner)->Ok_0;
    let written = header(schema_spec(), body.len()) + body;
    let a = desk.checkpoint(taken, true, one)->Ok_0.0;
    let b = desk.checkpoint(taken, true, other)->Ok_0.0;
    assert(a.subrange(0, a.len() - DIGEST_LEN) =~= written);
    assert(b.subrange(0, b.len() - DIGEST_LEN) =~= written);
    assert(a.subrange(a.len() - DIGEST_LEN, a.len() as int) =~= one.data());
    assert(b.subrange(b.len() - DIGEST_LEN, b.len() as int) =~= other.data());
}

/// Two hosts give the same bytes the same digest.
pub open spec fn hash_alike<
    H: FnOnce(&Vec<u8>, usize) -> Sha256Digest,
    J: FnOnce(&Vec<u8>, usize) -> Sha256Digest,
>(one: H, other: J) -> bool {
    forall|a: &Vec<u8>, m: usize, d: Sha256Digest, b: &Vec<u8>, n: usize, e: Sha256Digest|
        (#[trigger] call_ensures(one, (a, m), d)) && (#[trigger] call_ensures(other, (b, n), e))
            && m <= a@.len() && n <= b@.len() && a@.subrange(0, m as int) == b@.subrange(
            0,
            n as int,
        ) ==> d.data() == e.data()
}

/// Two checkpoints of one desk at one revision are the same document, byte for
/// byte, where the hosts hash alike.
pub proof fn checkpoints_of_one_desk_have_the_same_bytes<
    A: FnOnce(u64) -> bool,
    B: FnOnce(u64) -> bool,
    H: FnOnce(&Vec<u8>, usize) -> Sha256Digest,
    J: FnOnce(&Vec<u8>, usize) -> Sha256Digest,
    C: FnMut() -> bool,
    D: FnMut() -> bool,
>(
    desk: DeskModel,
    taken: u64,
    one: DeskCheckpoint,
    reserve_one: A,
    hash_one: H,
    canceled_one: C,
    other: DeskCheckpoint,
    reserve_other: B,
    hash_other: J,
    canceled_other: D,
)
    requires
        is_checkpoint(desk, taken, reserve_one, hash_one, canceled_one, Ok(one)),
        is_checkpoint(desk, taken, reserve_other, hash_other, canceled_other, Ok(other)),
        hash_alike(hash_one, hash_other),
    ensures
        one@ == other@,
{
    let a = lemma_written(desk, taken, one, reserve_one, hash_one, canceled_one);
    let b = lemma_written(desk, taken, other, reserve_other, hash_other, canceled_other);
    checkpoints_of_one_desk_are_equal(desk, taken, a, b);
    let body = one@.0.subrange(0, one@.0.len() - DIGEST_LEN);
    lemma_digests(hash_one, body, a, hash_other, body, b);
}

/// The digest behind a checkpoint.
proof fn lemma_written<
    A: FnOnce(u64) -> bool,
    H: FnOnce(&Vec<u8>, usize) -> Sha256Digest,
    C: FnMut() -> bool,
>(
    desk: DeskModel,
    taken: u64,
    saved: DeskCheckpoint,
    reserve: A,
    hash: H,
    canceled: C,
) -> (digest: Sha256Digest)
    requires
        is_checkpoint(desk, taken, reserve, hash, canceled, Ok(saved)),
    ensures
        desk.checkpoint(taken, true, digest) == Ok::<(Seq<u8>, nat), CheckpointError>(saved@),
        hashed_to(hash, saved@.0.subrange(0, saved@.0.len() - DIGEST_LEN), digest),
{
    let (granted, digest) = choose|granted: bool, digest: Sha256Digest|
        #![trigger desk.checkpoint(taken, granted, digest)]
        {
            let result = desk.checkpoint(taken, granted, digest);
            &&& result matches Ok((document, _)) ==> hashed_to(
                hash,
                document.subrange(0, document.len() - DIGEST_LEN),
                digest,
            )
            &&& result == Ok::<(Seq<u8>, nat), CheckpointError>(saved@)
        };
    assert(granted);
    digest
}

proof fn lemma_digests<
    H: FnOnce(&Vec<u8>, usize) -> Sha256Digest,
    J: FnOnce(&Vec<u8>, usize) -> Sha256Digest,
>(one: H, x: Seq<u8>, d: Sha256Digest, other: J, y: Seq<u8>, e: Sha256Digest)
    requires
        hash_alike(one, other),
        hashed_to(one, x, d),
        hashed_to(other, y, e),
        x == y,
    ensures
        d.data() == e.data(),
{
    let a = choose|written: &Vec<u8>|
        #![trigger call_ensures(one, (written, written@.len() as usize), d)]
        written@ == x && call_ensures(one, (written, written@.len() as usize), d);
    let b = choose|written: &Vec<u8>|
        #![trigger call_ensures(other, (written, written@.len() as usize), e)]
        written@ == y && call_ensures(other, (written, written@.len() as usize), e);
    assert(a.len() == a@.len() && b.len() == b@.len());
    assert(a@.subrange(0, a@.len() as int) =~= a@);
    assert(b@.subrange(0, b@.len() as int) =~= b@);
}

/// What a checkpoint wrote, a new desk with the same limits restores, whoever owns
/// it, and holds all of it again: where the hosts hash alike, memory is granted and
/// nobody cancels.
pub proof fn a_checkpoint_restores_into_a_new_desk<
    A: FnOnce(u64) -> bool,
    B: FnOnce(u64) -> bool,
    H: FnOnce(&Vec<u8>, usize) -> Sha256Digest,
    J: FnOnce(&Vec<u8>, usize) -> Sha256Digest,
    C: FnMut() -> bool,
    D: FnMut() -> bool,
>(
    source: DeskModel,
    taken: u64,
    saved: DeskCheckpoint,
    reserve_saved: A,
    hash_saved: H,
    canceled_saved: C,
    owner: ArenaOwnerId,
    document: &Vec<u8>,
    allocation: u64,
    reserve: B,
    hash: J,
    canceled: D,
    after: DeskModel,
    r: Result<RestoredDesk, CheckpointError>,
)
    requires
        desk_whole(source),
        is_checkpoint(source, taken, reserve_saved, hash_saved, canceled_saved, Ok(saved)),
        document@ == saved@.0,
        is_restore(
            DeskModel::fresh(owner, source.limits),
            0,
            1,
            document,
            allocation,
            reserve,
            hash,
            canceled,
            after,
            r,
        ),
        hash_alike(hash_saved, hash),
        forall|charge: u64, granted: bool| #[trigger]
            call_ensures(reserve, (charge,), granted) ==> granted,
        !call_ensures(canceled, (), true),
        import_charge(record_models(source.state.sources)) <= u64::MAX,
    ensures
        r is Ok,
        restored_alike(source, after),
{
    let written = lemma_written(source, taken, saved, reserve_saved, hash_saved, canceled_saved);
    let fresh = DeskModel::fresh(owner, source.limits);
    checkpoints_restore_into_new_desks(source, owner, taken, written, allocation);
    let whole = fresh.restore(0, 1, document@, allocation, written, true);
    assert(whole.1 is Ok);
    let (digest, granted) = choose|digest: Sha256Digest, granted: bool|
        #![trigger fresh.restore(0, 1, document@, allocation, digest, granted)]
        restored_with(fresh, 0, 1, document, allocation, reserve, hash, after, r, digest, granted);
    assert(restored_with(fresh, 0, 1, document, allocation, reserve, hash, after, r, digest, granted));
    assert(fresh.staleness(0, 1) is None);
    assert(DeskModel::document_error(document@, written) is None);
    let body = document@.subrange(0, document@.len() - DIGEST_LEN);
    let first = choose|first: &Vec<u8>|
        #![trigger call_ensures(hash_saved, (first, first@.len() as usize), written)]
        first@ == body && call_ensures(hash_saved, (first, first@.len() as usize), written);
    assert(first@.subrange(0, first@.len() as int) =~= body);
    assert(digest.data() == written.data());
    assert(DeskModel::document_error(document@, digest) is None);
    assert(granted);
}

} // verus!
