//! What becomes of a workspace's files.
use vstd::prelude::*;

use super::{
    documents_upto, is_capture_step, slot_found, unavailable_upto, was_asked, CaptureSlot,
    WorkspaceCaptureFailure, WorkspaceCaptures,
};
use crate::search::snapshot::reading_back::{lemma_more, places};
use crate::search::source::{CaptureRequest, CompleteCapture, SourceError};
use crate::search::workspace::{CatalogModel, WorkspaceError};

verus! {

/// A search of a workspace sees every captured file, in order, under its search key and
/// with its capture, and is told of every file that was not captured.
pub proof fn inputs_are_the_files(catalog: CatalogModel, slots: Seq<CaptureSlot>, n: int) -> (r: (
    Seq<int>,
    Seq<int>,
))
    requires
        0 <= n <= slots.len(),
        catalog.first_file.value + n <= u64::MAX,
    ensures
        places(n, |i: int| slots[i] is Ready, r.0),
        places(n, |i: int| !(slots[i] is Ready), r.1),
        documents_upto(catalog, slots, n).len() == r.0.len(),
        unavailable_upto(catalog, slots, n).len() == r.1.len(),
        forall|k: int|
            0 <= k < r.0.len() ==> {
                let document = #[trigger] documents_upto(catalog, slots, n)[k];
                &&& document.file.owner == catalog.owner
                &&& document.file.value == catalog.first_file.value + r.0[k]
                &&& document.path == catalog.entries[r.0[k]].search_key
                &&& slots[r.0[k]] == CaptureSlot::Ready(document.capture)
            },
        forall|k: int|
            0 <= k < r.1.len() ==> {
                let file = #[trigger] unavailable_upto(catalog, slots, n)[k];
                &&& file.owner == catalog.owner
                &&& file.value == catalog.first_file.value + r.1[k]
            },
    decreases n,
{
    let some = |i: int| slots[i] is Ready;
    let none = |i: int| !(slots[i] is Ready);
    if n > 0 {
        let (a, b) = inputs_are_the_files(catalog, slots, n - 1);
        let c = lemma_more(n - 1, some, a);
        let d = lemma_more(n - 1, none, b);
        (c, d)
    } else {
        (Seq::empty(), Seq::empty())
    }
}

/// The host was asked for exactly this file, under its path, and answered so.
pub open spec fn host_said<
    K: FnOnce(CaptureRequest, &Vec<u8>, usize) -> Result<CompleteCapture, SourceError>,
>(before: WorkspaceCaptures, answer: Result<CompleteCapture, SourceError>, capture: K) -> bool {
    exists|request: CaptureRequest, path: &Vec<u8>, limit: usize| #[trigger]
        call_ensures(capture, (request, path, limit), answer) && path@
            == before.catalog@.entries[before.next as int].path && request.file.owner
            == before.catalog@.owner && request.file.value == before.catalog@.first_file.value
            + before.next && request.revision.owner == before.catalog@.owner
            && request.revision.value == before.first_revision.value + before.next
            && request.range is None && limit <= before.catalog@.limits.max_file_bytes
            && before.bytes + limit <= before.catalog@.limits.max_source_bytes
}

/// A step settles the next file and no other. The file is captured with what the host
/// handed out for it. It is given up on only for its size, for what the host says, or
/// because what the host handed out is not what was asked for.
pub proof fn steps_settle_the_next_file<
    C: FnMut() -> bool,
    V: FnMut() -> Option<SourceError>,
    K: FnOnce(CaptureRequest, &Vec<u8>, usize) -> Result<CompleteCapture, SourceError>,
>(
    before: WorkspaceCaptures,
    after: WorkspaceCaptures,
    r: Result<bool, WorkspaceError>,
    canceled: C,
    refused: V,
    capture: K,
)
    requires
        before.wf(),
        is_capture_step(before, after, r, canceled, refused, capture),
        r is Ok,
        before.catalog@.first_file.value + before.slots@.len() <= u64::MAX,
        before.first_revision.value + before.slots@.len() <= u64::MAX,
    ensures
        before.next == before.slots@.len() ==> after == before && r == Ok::<
            bool,
            WorkspaceError,
        >(true),
        before.next < before.slots@.len() ==> {
            let n = before.next as int;
            let observed = before.catalog@.entries[n].observed_bytes;
            let limits = before.catalog@.limits;
            &&& after.next == n + 1
            &&& after.slots@.len() == before.slots@.len()
            &&& forall|i: int|
                0 <= i < before.slots@.len() && i != n ==> #[trigger] after.slots@[i]
                    == before.slots@[i]
            &&& match after.slots@[n] {
                CaptureSlot::Pending => false,
                CaptureSlot::Ready(held) => host_said(before, Ok(held), capture)
                    && held.request.file.value == before.catalog@.first_file.value + n
                    && after.bytes == before.bytes + held.bytes@.len() && observed
                    <= limits.max_file_bytes,
                CaptureSlot::Unavailable(WorkspaceCaptureFailure::FileLimit) => observed
                    > limits.max_file_bytes,
                CaptureSlot::Unavailable(WorkspaceCaptureFailure::SourceLimit) => before.bytes
                    + observed > limits.max_source_bytes,
                CaptureSlot::Unavailable(WorkspaceCaptureFailure::Source(e)) => host_said(
                    before,
                    Err(e),
                    capture,
                ),
                CaptureSlot::Unavailable(_) => exists|held: CompleteCapture| #[trigger]
                    host_said(before, Ok(held), capture) && (held.request.file.value
                        != before.catalog@.first_file.value + n || held.request.file.owner
                        != before.catalog@.owner || held.request.revision.value
                        != before.first_revision.value + n || held.request.revision.owner
                        != before.catalog@.owner || held.request.range is Some
                        || held.bytes@.len() > limits.max_file_bytes || before.bytes
                        + held.bytes@.len() > limits.max_source_bytes),
            }
        },
{
    if before.next < before.slots@.len() {
        let slot = choose|slot: CaptureSlot|
            #[trigger] slot_found(before, slot, capture) && after.settles(before, slot) && r
                == Ok::<bool, WorkspaceError>(after.done());
        if before.oversized() is None {
            let answer = choose|answer: Result<CompleteCapture, SourceError>|
                #[trigger] was_asked(before, answer, capture) && !(answer matches Err(
                    SourceError::Canceled,
                )) && slot == before.slot_of(answer);
            assert(host_said(before, answer, capture));
        }
        assert(after.slots@[before.next as int] == slot);
    }
}

} // verus!
