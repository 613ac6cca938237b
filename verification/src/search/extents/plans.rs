//! Which bytes of an extent are decoded.
use vstd::prelude::*;

use super::{decode_plan, extent_floor, ExtentModel};
use crate::identity::{ByteRange, QueryGeneration};
use crate::search::reader::DetectedEncoding;
use crate::search::reading_window::boundaries::{
    floors_split_nothing, inside_character, inside_crlf,
};
use crate::search::source::SourceEncoding;

verus! {

/// The bytes of the mark that an extent starts with, if the file starts there.
pub open spec fn mark_read(extent: ExtentModel, encoding: DetectedEncoding) -> int {
    let b = extent.bytes;
    if extent.start != 0 {
        0
    } else {
        match encoding {
            DetectedEncoding::Utf8 { has_bom } => if has_bom && b.len() >= 3 && b[0] == 0xef && b[1]
                == 0xbb && b[2] == 0xbf {
                3
            } else {
                0
            },
            DetectedEncoding::Utf16Le => if b.len() >= 2 && b[0] == 0xff && b[1] == 0xfe {
                2
            } else {
                0
            },
            DetectedEncoding::Utf16Be => if b.len() >= 2 && b[0] == 0xfe && b[1] == 0xff {
                2
            } else {
                0
            },
        }
    }
}

proof fn lemma_moved(extent: ExtentModel, offset: int, encoding: DetectedEncoding)
    requires
        extent.wf(),
        extent.start <= offset <= extent.end(),
    ensures
        extent_floor(extent, offset, encoding) matches Ok(n) ==> {
            &&& extent.start <= n <= offset <= n + 4
            &&& encoding is Utf8 && n < extent.end() ==> !inside_character(
                extent.bytes,
                encoding,
                n - extent.start,
            ) && !inside_crlf(extent.bytes, encoding, n - extent.start)
            &&& !(encoding is Utf8) && n < extent.end() ==> n % 2 == 0
        },
{
    let at = offset - extent.start;
    if encoding is Utf8 && at < extent.bytes.len() {
        floors_split_nothing(extent.bytes, encoding, at);
    }
}

/// The bytes that are decoded for a range are those of the range. Each end is moved back
/// by four bytes at most, so that it splits no character and no CRLF, and the mark of the
/// file is left out. Up to four bytes before them are decoded too. A range is refused if
/// four bytes on either side of it were not read, unless the file ends there.
pub proof fn plans_are_of_the_range(
    extent: ExtentModel,
    requested: ByteRange,
    encoding: DetectedEncoding,
    generation: QueryGeneration,
)
    requires
        extent.wf(),
    ensures
        decode_plan(extent, requested, SourceEncoding::Known(encoding), generation) matches Ok(plan)
            ==> {
            let mark = mark_read(extent, encoding);
            &&& generation.owner == extent.request.file.owner
            &&& extent.start <= requested.start <= requested.end <= extent.end()
            &&& requested.end - requested.start <= 262_144
            &&& extent.start == 0 || extent.start + 4 <= requested.start
            &&& extent.eof_known() || extent.end() >= requested.end + 4 || extent.end() == u64::MAX
            &&& plan.start >= mark
            &&& plan.start <= requested.start || plan.start == mark
            &&& requested.start <= plan.start + 4
            &&& plan.end <= requested.end || plan.end == plan.start
            &&& requested.end <= plan.end + 4
            &&& encoding is Utf8 && plan.start != mark && plan.start < extent.end() ==> !inside_character(
                extent.bytes,
                encoding,
                plan.start - extent.start,
            ) && !inside_crlf(extent.bytes, encoding, plan.start - extent.start)
            &&& encoding is Utf8 && plan.end != plan.start && plan.end < extent.end()
                ==> !inside_character(extent.bytes, encoding, plan.end - extent.start)
                && !inside_crlf(extent.bytes, encoding, plan.end - extent.start)
            &&& extent.start <= plan.map_start <= plan.start
            &&& plan.map_start == extent.start || plan.start - 5 <= plan.map_start <= plan.start - 4
        },
{
    if extent.has(requested) {
        lemma_moved(extent, requested.start as int, encoding);
        lemma_moved(extent, requested.end as int, encoding);
    }
}

} // verus!
