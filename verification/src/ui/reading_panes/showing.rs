//! What opening, changing and closing panes does to them.
use vstd::prelude::*;

use super::{
    capture_from, distinct_ids, file_from, pane_from, top_unpinned, PaneModel, PanesModel,
};
use crate::identity::{ByteRange, FileId, SourceRevision};

verus! {

/// Panes that were there are still there, in order, and as they were but for one place.
pub open spec fn same_but(before: Seq<PaneModel>, after: Seq<PaneModel>, at: int) -> bool {
    &&& before.len() <= after.len()
    &&& forall|i: int| 0 <= i < before.len() && i != at ==> #[trigger] after[i] == before[i]
}

proof fn lemma_pane(panes: Seq<PaneModel>, id: u64, i: int)
    requires
        0 <= i,
    ensures
        match pane_from(panes, id, i) {
            Some(n) => i <= n < panes.len() && panes[n].id == id,
            None => forall|k: int| i <= k < panes.len() ==> (#[trigger] panes[k]).id != id,
        },
        forall|k: int|
            distinct_ids(panes) && i <= k < panes.len() && (#[trigger] panes[k]).id == id
                ==> pane_from(panes, id, i) == Some(k),
    decreases panes.len() - i,
{
    if i < panes.len() {
        lemma_pane(panes, id, i + 1);
    }
}

proof fn lemma_file(panes: Seq<PaneModel>, file: FileId, i: int)
    requires
        0 <= i,
    ensures
        match file_from(panes, file, i) {
            Some(n) => i <= n < panes.len() && panes[n].file_id == file,
            None => forall|k: int| i <= k < panes.len() ==> (#[trigger] panes[k]).file_id != file,
        },
    decreases panes.len() - i,
{
    if i < panes.len() {
        lemma_file(panes, file, i + 1);
    }
}

proof fn lemma_capture(panes: Seq<PaneModel>, file: FileId, revision: SourceRevision, i: int)
    requires
        0 <= i,
    ensures
        match capture_from(panes, file, revision, i) {
            Some(n) => i <= n < panes.len() && panes[n].file_id == file && panes[n].revision
                == Some(revision),
            None => forall|k: int|
                i <= k < panes.len() ==> (#[trigger] panes[k]).file_id != file || panes[k].revision
                    != Some(revision),
        },
    decreases panes.len() - i,
{
    if i < panes.len() {
        lemma_capture(panes, file, revision, i + 1);
    }
}

/// Opening a file shows it: one pane shows the file at the line and is active. It is a
/// pane that already showed the file, if there is one, and a new one in front of the
/// others if there is none. All other panes stay as they are.
pub proof fn opened_files_are_shown(
    panes: PanesModel,
    file: FileId,
    path: Seq<char>,
    line: Option<usize>,
) -> (at: int)
    ensures
        ({
            let after = panes.open_or_focus(file, path, line);
            &&& same_but(panes.panes, after.panes, at)
            &&& 0 <= at < after.panes.len()
            &&& after.panes[at].file_id == file
            &&& after.panes[at].target_line == line
            &&& after.active == Some(after.panes[at].id)
            &&& at < panes.panes.len() ==> panes.panes[at].file_id == file && after.panes.len()
                == panes.panes.len() && after.panes[at].id == panes.panes[at].id
                && after.panes[at].path == panes.panes[at].path
            &&& at >= panes.panes.len() ==> after.panes.len() == panes.panes.len() + 1
                && after.panes[at].path == path && after.panes[at].id == panes.next_id
                && !after.panes[at].is_pinned && forall|k: int|
                0 <= k < panes.panes.len() ==> (#[trigger] panes.panes[k]).file_id != file
        }),
{
    lemma_file(panes.panes, file, 0);
    match file_from(panes.panes, file, 0) {
        Some(i) => i,
        None => panes.panes.len() as int,
    }
}

/// Opening a capture shows it: one pane shows this revision of the file at the line with
/// the range selected, and is active. It is one that already showed this revision, if
/// there is one, and a new one if there is none.
pub proof fn opened_captures_are_shown(
    panes: PanesModel,
    file: FileId,
    revision: SourceRevision,
    path: Seq<char>,
    line: usize,
    range: ByteRange,
) -> (at: int)
    requires
        range.start <= usize::MAX,
        range.end <= usize::MAX,
    ensures
        ({
            let after = panes.open_captured(file, revision, path, line, range);
            &&& same_but(panes.panes, after.panes, at)
            &&& 0 <= at < after.panes.len()
            &&& after.panes[at].file_id == file
            &&& after.panes[at].revision == Some(revision)
            &&& after.panes[at].path == path
            &&& after.panes[at].target_line == Some(line)
            &&& after.panes[at].selection is Some
            &&& (after.panes[at].selection->Some_0).0 == range.start
            &&& (after.panes[at].selection->Some_0).1 == range.end
            &&& after.active == Some(after.panes[at].id)
            &&& at < panes.panes.len() ==> after.panes.len() == panes.panes.len()
                && after.panes[at].id == panes.panes[at].id && panes.panes[at].file_id == file
                && panes.panes[at].revision == Some(revision)
            &&& at >= panes.panes.len() ==> after.panes.len() == panes.panes.len() + 1
                && after.panes[at].id == panes.next_id && forall|k: int|
                0 <= k < panes.panes.len() ==> (#[trigger] panes.panes[k]).file_id != file
                    || panes.panes[k].revision != Some(revision)
        }),
{
    lemma_capture(panes.panes, file, revision, 0);
    match capture_from(panes.panes, file, revision, 0) {
        Some(i) => i,
        None => panes.panes.len() as int,
    }
}

/// Pinning a pane, selecting text in it and scrolling it change that of this pane and
/// nothing else.
pub proof fn changes_are_to_one_pane(
    panes: PanesModel,
    at: int,
    pinned: bool,
    range: Option<(usize, usize)>,
)
    requires
        distinct_ids(panes.panes),
        0 <= at < panes.panes.len(),
    ensures
        ({
            let id = panes.panes[at].id;
            let set = panes.set_pinned(id, pinned);
            let toggled = panes.toggle_pin(id);
            let selected = panes.set_text_selection(id, range);
            &&& same_but(panes.panes, set.panes, at) && same_but(panes.panes, toggled.panes, at)
                && same_but(panes.panes, selected.panes, at)
            &&& set.panes[at].is_pinned == pinned
            &&& toggled.panes[at].is_pinned == !panes.panes[at].is_pinned
            &&& toggled.toggle_pin(id) == panes
            &&& selected.panes[at].selection == range
            &&& selected.panes[at].is_pinned == panes.panes[at].is_pinned
            &&& set.panes[at].selection == panes.panes[at].selection
            &&& set.active == panes.active && toggled.active == panes.active && selected.active
                == panes.active
        }),
{
    let id = panes.panes[at].id;
    lemma_pane(panes.panes, id, 0);
    let toggled = panes.toggle_pin(id);
    assert(distinct_ids(toggled.panes)) by {
        assert forall|i: int, j: int| 0 <= i < j < toggled.panes.len() implies (
        #[trigger] toggled.panes[i]).id != (#[trigger] toggled.panes[j]).id by {
            assert(panes.panes[i].id != panes.panes[j].id);
        }
    }
    lemma_pane(toggled.panes, id, 0);
    assert(toggled.panes[at].id == id);
    assert(toggled.toggle_pin(id).panes =~= panes.panes);
}

/// Closing a pane takes away this one and no other, and the others keep their order. If
/// it was active, the one in front of all is active next.
pub proof fn closing_takes_one_away(panes: PanesModel, at: int)
    requires
        distinct_ids(panes.panes),
        0 <= at < panes.panes.len(),
    ensures
        ({
            let id = panes.panes[at].id;
            let after = panes.close_pane(id);
            &&& after.panes.len() == panes.panes.len() - 1
            &&& forall|i: int| 0 <= i < at ==> #[trigger] after.panes[i] == panes.panes[i]
            &&& forall|i: int|
                at <= i < after.panes.len() ==> #[trigger] after.panes[i] == panes.panes[i + 1]
            &&& panes.active != Some(id) ==> after.active == panes.active
            &&& panes.active == Some(id) && after.panes.len() == 0 ==> after.active is None
            &&& panes.active == Some(id) && after.panes.len() > 0 ==> after.active == Some(
                after.panes[after.panes.len() - 1].id,
            )
        }),
{
    lemma_pane(panes.panes, panes.panes[at].id, 0);
}

proof fn lemma_top(panes: Seq<PaneModel>, n: int)
    requires
        0 <= n <= panes.len(),
    ensures
        match top_unpinned(panes, n) {
            Some(id) => exists|k: int| #[trigger] is_top(panes, n, k) && panes[k].id == id,
            None => forall|k: int| 0 <= k < n ==> (#[trigger] panes[k]).is_pinned,
        },
    decreases n,
{
    if n > 0 {
        lemma_top(panes, n - 1);
        if !panes[n - 1].is_pinned {
            assert(is_top(panes, n, n - 1));
        } else if let Some(id) = top_unpinned(panes, n) {
            let k = choose|k: int| #[trigger] is_top(panes, n - 1, k) && panes[k].id == id;
            assert(is_top(panes, n, k));
        }
    }
}

/// A pane that is not pinned, with only pinned ones in front of it.
pub open spec fn is_top(panes: Seq<PaneModel>, n: int, k: int) -> bool {
    &&& 0 <= k < n <= panes.len()
    &&& !panes[k].is_pinned
    &&& forall|l: int| k < l < n ==> (#[trigger] panes[l]).is_pinned
}

/// Backing out closes the active pane if it is not pinned, or else the frontmost one that
/// is not, and nothing if all are.
pub proof fn backing_out_closes_the_right_pane(panes: PanesModel)
    requires
        distinct_ids(panes.panes),
    ensures
        match panes.closing() {
            Some(id) => exists|k: int|
                0 <= k < panes.panes.len() && (#[trigger] panes.panes[k]).id == id
                    && !panes.panes[k].is_pinned && (panes.active == Some(id) || is_top(
                    panes.panes,
                    panes.panes.len() as int,
                    k,
                )),
            None => forall|k: int|
                0 <= k < panes.panes.len() ==> (#[trigger] panes.panes[k]).is_pinned,
        },
        forall|k: int|
            0 <= k < panes.panes.len() && panes.active == Some((#[trigger] panes.panes[k]).id)
                && !panes.panes[k].is_pinned ==> panes.closing() == panes.active,
        panes.closing() is None ==> panes.close_active_or_top_unpinned() == panes,
        panes.closing() matches Some(id) ==> panes.close_active_or_top_unpinned()
            == panes.close_pane(id),
{
    lemma_top(panes.panes, panes.panes.len() as int);
    if let Some(id) = panes.active {
        lemma_pane(panes.panes, id, 0);
    }
    if let Some(id) = panes.closing() {
        if !(panes.active_pane() matches Some(pane) && !pane.is_pinned) {
            let k = choose|k: int|
                #[trigger] is_top(panes.panes, panes.panes.len() as int, k) && panes.panes[k].id
                    == id;
            assert(panes.panes[k].id == id);
        }
    }
}

} // verus!
