//! What is copied of a selection and which character is hit, told by the bytes and the
//! characters alone.
use vstd::prelude::*;
use vstd::utf8::{encode_utf8, valid_utf8};

use super::{
    hit, is_hit, staged, ClipboardError, ClipboardLimits, ClipboardModel, SourceSelection,
    StagedModel,
};
use crate::capture::CaptureModel;
use crate::identity::{ByteRange, QueryGeneration};
use crate::search::lens::guides::columns::{column_of, stops};
use crate::search::lens::LensSelection;
use crate::search::reader::ReaderError;
use crate::text::lossy_text;

verus! {

/// Bytes are those of a range, one for one.
pub open spec fn are_bytes_of(bytes: Seq<u8>, capture: CaptureModel, range: ByteRange) -> bool {
    &&& range.start <= range.end <= capture.bytes.len()
    &&& bytes.len() == range.end - range.start
    &&& forall|i: int|
        0 <= i < bytes.len() ==> #[trigger] bytes[i] == capture.bytes[range.start + i]
}

/// A text is what bytes say, or what is left of it after replacing what they do not say.
pub open spec fn says(text: Seq<char>, bytes: Seq<u8>) -> bool {
    if valid_utf8(bytes) {
        encode_utf8(text) == bytes
    } else {
        text == lossy_text(bytes)
    }
}

/// Staged data has the selected bytes, one for one, and the text that they say. Staging
/// succeeds for a selection of the current source and generation that lies within the
/// capture, if its bytes are within the limit and all that is staged within three times
/// that, and for no other.
pub proof fn staged_data_is_what_was_selected(
    selection: SourceSelection,
    capture: CaptureModel,
    generation: QueryGeneration,
    limits: ClipboardLimits,
)
    requires
        capture.bytes.len() <= usize::MAX,
    ensures
        staged(selection, capture, generation, limits) matches Ok(data) ==> {
            &&& are_bytes_of(data.exact_bytes, capture, selection.byte_range)
            &&& says(data.plain_text, data.exact_bytes)
            &&& data.has_replacements == !valid_utf8(data.exact_bytes)
            &&& selection.file == capture.file
            &&& selection.file.owner == capture.owner
            &&& selection.revision == capture.revision
            &&& selection.generation == generation
            &&& generation.owner == capture.owner
            &&& data.exact_bytes.len() <= limits.max_clipboard_bytes
            &&& data.total_staged_bytes == if data.exact_bytes.len() + encode_utf8(
                data.plain_text,
            ).len() + encode_utf8(data.provenance).len() > usize::MAX {
                usize::MAX as int
            } else {
                (data.exact_bytes.len() + encode_utf8(data.plain_text).len() + encode_utf8(
                    data.provenance,
                ).len()) as int
            }
            &&& data.total_staged_bytes <= limits.max_clipboard_bytes * 3
            &&& "File: "@ + capture.logical_path == data.provenance.subrange(
                0,
                ("File: "@ + capture.logical_path).len() as int,
            )
        },
        staged(selection, capture, generation, limits) matches Err(e) ==> {
            ||| selection.file.owner != capture.owner
            ||| generation.owner != capture.owner
            ||| selection.file != capture.file
            ||| selection.revision != capture.revision
            ||| selection.generation != generation
            ||| selection.byte_range.start > selection.byte_range.end
            ||| selection.byte_range.end > capture.bytes.len()
            ||| e matches ClipboardError::BudgetExceeded { requested_bytes, max_budget_bytes }
                && max_budget_bytes == limits.max_clipboard_bytes && requested_bytes
                > max_budget_bytes
        },
{
    let range = selection.byte_range;
    if let Ok(data) = staged(selection, capture, generation, limits) {
        if valid_utf8(data.exact_bytes) {
            vstd::utf8::decode_utf8_encode_utf8(data.exact_bytes);
        }
        assert(data.provenance.subrange(0, ("File: "@ + capture.logical_path).len() as int)
            =~= "File: "@ + capture.logical_path);
    }
}

/// What is published is what was staged, and nothing else is changed by a publication
/// that fails.
pub proof fn publication_shows_the_staged_data(
    clipboard: ClipboardModel,
    data: StagedModel,
    expected_seq: u64,
)
    ensures
        ({
            let (after, answer) = clipboard.published(data, expected_seq);
            &&& answer is Ok <==> clipboard.generation_seq == expected_seq
                && !clipboard.fail_next_publish
            &&& answer is Ok ==> after.plain_text == Some(data.plain_text) && after.raw_bytes
                == Some(data.exact_bytes) && after.provenance == Some(data.provenance)
                && after.generation_seq != clipboard.generation_seq
            &&& answer is Err ==> after.plain_text == clipboard.plain_text && after.raw_bytes
                == clipboard.raw_bytes && after.provenance == clipboard.provenance
                && after.generation_seq == clipboard.generation_seq
        }),
{
}

/// A copy from a lens has the selected bytes, one for one. It is given for a selection of
/// this source that lies within the capture and within the budget, and for no other.
pub proof fn lens_copies_are_what_was_selected(
    selection: LensSelection,
    capture: CaptureModel,
    max_budget_bytes: usize,
)
    requires
        capture.bytes.len() <= usize::MAX,
    ensures
        selection.selected(capture, max_budget_bytes) matches Ok(bytes) ==> are_bytes_of(
            bytes,
            capture,
            selection.byte_range,
        ),
        selection.selected(capture, max_budget_bytes) is Ok <==> {
            &&& selection.file == capture.file
            &&& selection.file.owner == capture.owner
            &&& selection.generation.owner == capture.owner
            &&& selection.revision == capture.revision
            &&& selection.byte_range.start <= selection.byte_range.end <= capture.bytes.len()
            &&& selection.byte_range.end - selection.byte_range.start <= max_budget_bytes
        },
        selection.selected(capture, max_budget_bytes) == Err::<Seq<u8>, ReaderError>(
            ReaderError::ResourceDenied,
        ) ==> selection.byte_range.end - selection.byte_range.start > max_budget_bytes,
{
}

proof fn lemma_columns(text: Seq<char>, i: int, tab_width: u32)
    ensures
        super::column_of(text, i, tab_width) == column_of(text, i, stops(tab_width)),
        0 <= column_of(text, i, stops(tab_width)),
    decreases i,
{
    if i > 0 {
        lemma_columns(text, i - 1, tab_width);
        let c = column_of(text, i - 1, stops(tab_width));
        let stop = stops(tab_width);
        assert(c + (stop - c % stop) == (c / stop + 1) * stop && 0 <= (c / stop + 1) * stop)
            by (nonlinear_arith)
            requires
                stop > 0,
                c >= 0,
        ;
    }
}

/// The character hit is the one whose columns hold the target, or the end of the text if
/// none do. The caret goes before it in the left half of those columns, and behind it in
/// the right half.
pub proof fn hits_hold_the_target(text: Seq<char>, target: u32, tab_width: u32, i: int)
    requires
        is_hit(text, target, tab_width, i),
        encode_utf8(text.subrange(0, i)).len() <= usize::MAX,
    ensures
        ({
            let r = hit(text, target, tab_width, i);
            let from = column_of(text, i, stops(tab_width));
            let to = column_of(text, i + 1, stops(tab_width));
            &&& 0 <= i <= text.len()
            &&& from <= target
            &&& i < text.len() ==> target < to
            &&& i <= usize::MAX ==> r.char_index == i
            &&& r.byte_offset == encode_utf8(text.subrange(0, i)).len()
            &&& r.visual_column == from
            &&& r.affinity is Leading <==> i < text.len() && 2 * (target - from) <= to - from
            &&& r.is_exact_boundary <==> i == text.len() || target == from
        }),
{
    lemma_columns(text, i, tab_width);
    lemma_columns(text, i + 1, tab_width);
    assert(super::column_of(text, i, tab_width) <= target);
}

} // verus!
