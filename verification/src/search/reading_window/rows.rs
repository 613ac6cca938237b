//! What the rows of a window are, told by the bytes alone.
use vstd::prelude::*;

use super::{
    assembled, floor_of, layout_of, lemma_floor, line_of, lines_from, next_of, plan_from, row_at,
    row_from, windowed, DecodedUtf8Range, LineEnding, MapModel, ReadingLine, ReadingWindowOptions,
    WindowModel, WindowPlan,
};
use crate::capture::CaptureModel;
use crate::identity::{ByteRange, QueryGeneration};
use crate::search::reader::lines::{unit_of, unit_size};
use crate::search::reader::{
    lemma_token, token, Cursor, DetectedEncoding, IndexModel, ReadingAnchor,
};

verus! {

/// Nothing in a stretch ends a line.
pub open spec fn unbroken(bytes: Seq<u8>, encoding: DetectedEncoding, from: int, to: int) -> bool {
    let w = unit_size(encoding);
    forall|p: int|
        from <= p < to && (p - from) % w == 0 && p + w <= bytes.len() ==> #[trigger] unit_of(
            bytes,
            encoding,
            p,
        ) != 0x0a && unit_of(bytes, encoding, p) != 0x0d
}

/// A terminator of this kind stands between two places.
pub open spec fn terminates(
    bytes: Seq<u8>,
    encoding: DetectedEncoding,
    ending: LineEnding,
    from: int,
    to: int,
) -> bool {
    let w = unit_size(encoding);
    match ending {
        LineEnding::NoEnding => from == to,
        LineEnding::Lf => to == from + w && to <= bytes.len() && unit_of(bytes, encoding, from)
            == 0x0a,
        LineEnding::Cr => to == from + w && to <= bytes.len() && unit_of(bytes, encoding, from)
            == 0x0d && !(to + w <= bytes.len() && unit_of(bytes, encoding, to) == 0x0a),
        LineEnding::CrLf => to == from + w + w && to <= bytes.len() && unit_of(
            bytes,
            encoding,
            from,
        ) == 0x0d && unit_of(bytes, encoding, from + w) == 0x0a,
    }
}

/// The decoded text has this place for a place in the bytes: both are the start of the
/// text, or the start or the end of the same character.
pub open spec fn stands_at(map: MapModel, raw: u64, decoded: int) -> bool {
    ||| raw == map.raw_base && decoded == 0
    ||| exists|i: int|
        0 <= i < map.spans.len() && ((#[trigger] map.spans[i]).raw_start == raw
            && map.spans[i].decoded_start == decoded || map.spans[i].raw_end == raw
            && map.spans[i].decoded_end == decoded)
}

/// A row is a stretch of bytes without a line's end, and the terminator behind it if
/// one is there, and it knows where its text is.
pub open spec fn proper_row(
    bytes: Seq<u8>,
    encoding: DetectedEncoding,
    map: MapModel,
    base: int,
    row: ReadingLine,
) -> bool {
    &&& row.raw_range.start == row.content_range.start
    &&& row.content_range.start <= row.content_range.end <= row.raw_range.end <= bytes.len()
    &&& unbroken(
        bytes,
        encoding,
        row.content_range.start as int,
        row.content_range.end as int,
    )
    &&& terminates(
        bytes,
        encoding,
        row.ending,
        row.content_range.end as int,
        row.raw_range.end as int,
    )
    &&& row.continued_after == (row.ending == LineEnding::NoEnding && row.raw_range.end
        < bytes.len())
    &&& row.text_range.start <= row.text_range.end
    &&& stands_at(map, row.content_range.start, base + row.text_range.start)
    &&& stands_at(map, row.content_range.end, base + row.text_range.end)
}

/// A selection of decoded text stands for the bytes that its ends stand for, and bytes
/// for the text between theirs, within the window.
pub proof fn selections_stand_for_their_bytes(window: WindowModel, source: CaptureModel)
    requires
        window.decoded_base >= 0,
    ensures
        forall|range: DecodedUtf8Range|
            (#[trigger] window.raw_of(range, source) matches Ok(raw) ==> {
                &&& range.start <= range.end
                &&& raw.start <= raw.end <= source.bytes.len()
                &&& stands_at(window.map, raw.start, window.decoded_base + range.start)
                &&& stands_at(window.map, raw.end, window.decoded_base + range.end)
            }),
        forall|range: ByteRange|
            (#[trigger] window.text_of(range) matches Ok(text) ==> {
                &&& window.raw_range.start <= range.start
                &&& range.end <= window.raw_range.end
                &&& text.start <= text.end
                &&& stands_at(window.map, range.start, window.decoded_base + text.start)
                &&& stands_at(window.map, range.end, window.decoded_base + text.end)
            }),
{
    assert forall|range: DecodedUtf8Range|
        (#[trigger] window.raw_of(range, source) matches Ok(raw) ==> {
            &&& range.start <= range.end
            &&& raw.start <= raw.end <= source.bytes.len()
            &&& stands_at(window.map, raw.start, window.decoded_base + range.start)
            &&& stands_at(window.map, raw.end, window.decoded_base + range.end)
        }) by {
        lemma_raw(window.map, (window.decoded_base + range.start) as u64, 0);
        lemma_raw(window.map, (window.decoded_base + range.end) as u64, 0);
    }
    assert forall|range: ByteRange|
        (#[trigger] window.text_of(range) matches Ok(text) ==> {
            &&& window.raw_range.start <= range.start
            &&& range.end <= window.raw_range.end
            &&& text.start <= text.end
            &&& stands_at(window.map, range.start, window.decoded_base + text.start)
            &&& stands_at(window.map, range.end, window.decoded_base + text.end)
        }) by {
        lemma_decoded(window.map, range.start, 0);
        lemma_decoded(window.map, range.end, 0);
    }
}

pub proof fn lemma_raw(map: MapModel, decoded: u64, i: int)
    requires
        0 <= i,
    ensures
        super::raw_from(map.spans, decoded, i) matches Some(raw) ==> stands_at(
            map,
            raw,
            decoded as int,
        ),
    decreases map.spans.len() - i,
{
    if i < map.spans.len() {
        lemma_raw(map, decoded, i + 1);
        assert(map.spans[i] == map.spans[i]);
    }
}

pub proof fn lemma_decoded(map: MapModel, raw: u64, i: int)
    requires
        0 <= i,
    ensures
        super::decoded_from(map.spans, raw, i) matches Some(decoded) ==> stands_at(
            map,
            raw,
            decoded as int,
        ),
    decreases map.spans.len() - i,
{
    if i < map.spans.len() {
        lemma_decoded(map, raw, i + 1);
        assert(map.spans[i] == map.spans[i]);
    }
}

proof fn lemma_draft(bytes: Seq<u8>, encoding: DetectedEncoding, c: Cursor, at: int, limit: int)
    requires
        bytes.len() <= usize::MAX,
        0 <= c.offset <= at <= bytes.len(),
        limit <= bytes.len(),
        (at - c.offset) % unit_size(encoding) == 0 || at == bytes.len(),
        unbroken(bytes, encoding, c.offset as int, at),
    ensures
        row_from(bytes, encoding, c, at, limit) matches Ok(row) ==> {
            &&& row.start == c.offset
            &&& row.start <= row.content_end <= row.end <= bytes.len()
            &&& unbroken(bytes, encoding, c.offset as int, row.content_end as int)
            &&& terminates(bytes, encoding, row.ending, row.content_end as int, row.end as int)
            &&& row.next matches Some(next) ==> next.offset == row.end && next.line == c.line
                + if row.ending == LineEnding::NoEnding {
                0int
            } else {
                1int
            } && next.start == if row.ending == LineEnding::NoEnding {
                c.start
            } else {
                row.end
            }
            &&& row.next is None ==> row.ending == LineEnding::NoEnding && row.end == bytes.len()
            &&& row.ending == LineEnding::NoEnding ==> row.end >= limit
        },
    decreases limit - at,
{
    if at < limit {
        lemma_token(bytes, encoding, at);
        let (width, newline) = token(bytes, encoding, at);
        if width <= limit - at && !newline {
            assert(unbroken(bytes, encoding, c.offset as int, at + width));
            lemma_draft(bytes, encoding, c, at + width, limit);
        }
    }
}

proof fn lemma_lines(
    bytes: Seq<u8>,
    encoding: DetectedEncoding,
    map: MapModel,
    base: int,
    c: Cursor,
    end: int,
    count: int,
)
    requires
        bytes.len() <= usize::MAX,
        c.offset <= bytes.len(),
        end <= bytes.len(),
        0 <= base,
    ensures
        lines_from(bytes, encoding, map, base, c, end, count) matches Ok(rows) ==> {
            &&& forall|k: int|
                0 <= k < rows.len() ==> proper_row(bytes, encoding, map, base, #[trigger] rows[k])
            &&& rows.len() > 0 ==> rows[0].number == c.line && rows[0].raw_range.start == c.offset
                && rows[0].continued_before == (c.offset > c.start)
            &&& forall|k: int|
                0 <= k < rows.len() - 1 ==> numbered_on(#[trigger] rows[k], rows[k + 1])
            &&& rows.len() == if count > 0 {
                count
            } else {
                0
            }
        },
    decreases count,
{
    if count > 0 {
        if let Ok(rows) = lines_from(bytes, encoding, map, base, c, end, count) {
            lemma_draft(bytes, encoding, c, c.offset as int, end);
            let row = row_at(bytes, encoding, c, end)->Ok_0;
            let line = line_of(bytes, map, base, c, row)->Ok_0;
            let next = next_of(c, row);
            lemma_lines(bytes, encoding, map, base, next, end, count - 1);
            let rest = lines_from(bytes, encoding, map, base, next, end, count - 1)->Ok_0;
            lemma_decoded(map, row.start as u64, 0);
            lemma_decoded(map, row.content_end as u64, 0);
            assert(map.decoded(row.start as u64) is Some && map.decoded(row.content_end as u64) is Some);
            assert(stands_at(map, line.content_range.start, base + line.text_range.start));
            assert(stands_at(map, line.content_range.end, base + line.text_range.end));
            assert(proper_row(bytes, encoding, map, base, line));
            assert(rows == seq![line] + rest);
            assert forall|k: int| 0 <= k < rows.len() implies proper_row(
                bytes,
                encoding,
                map,
                base,
                #[trigger] rows[k],
            ) by {
                if k > 0 {
                    assert(rows[k] == rest[k - 1]);
                }
            }
            assert forall|k: int| 0 <= k < rows.len() - 1 implies numbered_on(
                #[trigger] rows[k],
                rows[k + 1],
            ) by {
                assert(rows[k + 1] == rest[k]);
                if k > 0 {
                    assert(rows[k] == rest[k - 1]);
                    assert(numbered_on(rest[k - 1], rest[k - 1 + 1]));
                }
            }
        }
    }
}

/// One row follows another: on the next line if the other ended one, else on the same.
pub open spec fn numbered_on(row: ReadingLine, next: ReadingLine) -> bool {
    &&& next.number == row.number + if row.ending == LineEnding::NoEnding {
        0int
    } else {
        1int
    }
    &&& row.ending != LineEnding::NoEnding ==> !next.continued_before
}

proof fn lemma_full(
    bytes: Seq<u8>,
    encoding: DetectedEncoding,
    c: Cursor,
    limit: int,
    max_lines: int,
    rows: int,
)
    requires
        bytes.len() <= usize::MAX,
        c.offset <= bytes.len(),
        limit <= bytes.len(),
        0 <= rows < max_lines <= usize::MAX,
    ensures
        plan_from(bytes, encoding, c, limit, max_lines, rows) matches Ok(plan) ==> {
            &&& plan.rows == max_lines || plan.end >= limit
            &&& plan.next is None ==> plan.end == bytes.len()
            &&& plan.end <= bytes.len()
            &&& plan.rows <= max_lines
        },
    decreases max_lines - rows,
{
    if let Ok(plan) = plan_from(bytes, encoding, c, limit, max_lines, rows) {
        lemma_draft(bytes, encoding, c, c.offset as int, limit);
        super::lemma_row(bytes, encoding, c, c.offset as int, limit);
        let row = row_at(bytes, encoding, c, limit)->Ok_0;
        if let Some(next) = row.next {
            if rows + 1 < max_lines && (next.offset < limit || limit == bytes.len()) {
                lemma_full(bytes, encoding, next, limit, max_lines, rows + 1);
            }
        }
    }
}

/// The rows of a window are rows of the bytes, numbered from the anchor's line on, each
/// with its text. The window stops only at the limit of rows or of bytes or at the end
/// of the capture, and has a window behind it exactly if it did not come to that end, or
/// if a last empty line is still to be shown.
pub proof fn windows_show_rows_of_the_bytes(
    index: IndexModel,
    source: CaptureModel,
    anchor: ReadingAnchor,
    generation: QueryGeneration,
    options: ReadingWindowOptions,
    granted: bool,
    decoded: Option<MapModel>,
)
    requires
        source.bytes.len() <= usize::MAX,
    ensures
        windowed(index, source, anchor, generation, options, granted, decoded) matches Ok(window)
            ==> {
            &&& decoded == Some(window.map)
            &&& forall|k: int|
                0 <= k < window.rows.len() ==> proper_row(
                    source.bytes,
                    index.encoding,
                    window.map,
                    window.decoded_base,
                    #[trigger] window.rows[k],
                )
            &&& window.rows.len() > 0 ==> window.rows[0].number == anchor.line
                && window.rows[0].continued_before == (window.raw_range.start
                > anchor.line_start)
            &&& forall|k: int|
                0 <= k < window.rows.len() - 1 ==> numbered_on(
                    #[trigger] window.rows[k],
                    window.rows[k + 1],
                )
            &&& window.rows.len() == options.max_lines || window.raw_range.end + 5
                > window.raw_range.start + options.max_bytes || window.raw_range.end
                == source.bytes.len()
            &&& window.next is None ==> window.raw_range.end == source.bytes.len()
            &&& stands_at(window.map, window.raw_range.start, window.decoded_base)
        },
{
    if let Ok(window) = windowed(index, source, anchor, generation, options, granted, decoded) {
        let bytes = source.bytes;
        let layout = layout_of(index, source, anchor, options)->Ok_0;
        lemma_layout(index, source, anchor, options);
        lemma_assembled(index, source, anchor, layout, window.map);
        super::windows_are_bounded_and_continue(
            index,
            source,
            anchor,
            generation,
            options,
            granted,
            decoded,
        );
    }
}

proof fn lemma_layout(
    index: IndexModel,
    source: CaptureModel,
    anchor: ReadingAnchor,
    options: ReadingWindowOptions,
)
    requires
        source.bytes.len() <= usize::MAX,
        options.max_lines > 0,
    ensures
        layout_of(index, source, anchor, options) matches Ok(layout) ==> {
            &&& layout.0.line == anchor.line
            &&& layout.0.start == anchor.line_start
            &&& layout.0.offset <= source.bytes.len()
            &&& layout.1.end <= source.bytes.len()
            &&& layout.1.rows == options.max_lines || layout.1.end + 5 > layout.0.offset
                + options.max_bytes || layout.1.end == source.bytes.len()
            &&& layout.1.next is None ==> layout.1.end == source.bytes.len()
        },
{
    let bytes = source.bytes;
    let offset = if anchor.offset < index.content_start {
        index.content_start
    } else {
        anchor.offset
    };
    lemma_floor(bytes, index.encoding, offset as int);
    let start = floor_of(bytes, index.encoding, offset as int);
    let far = if start + options.max_bytes < bytes.len() {
        start + options.max_bytes
    } else {
        bytes.len() as int
    };
    lemma_floor(bytes, index.encoding, far);
    lemma_floor_near(bytes, index.encoding, far);
    let limit = floor_of(bytes, index.encoding, far);
    let first = Cursor { offset: start as usize, line: anchor.line, start: anchor.line_start };
    lemma_full(bytes, index.encoding, first, limit, options.max_lines as int, 0);
}

proof fn lemma_assembled(
    index: IndexModel,
    source: CaptureModel,
    anchor: ReadingAnchor,
    layout: (Cursor, WindowPlan, int),
    map: MapModel,
)
    requires
        source.bytes.len() <= usize::MAX,
        layout.0.offset <= source.bytes.len(),
        layout.1.end <= source.bytes.len(),
    ensures
        assembled(index, source, anchor, layout, map) matches Ok(window) ==> {
            &&& window.map == map
            &&& forall|k: int|
                0 <= k < window.rows.len() ==> proper_row(
                    source.bytes,
                    index.encoding,
                    map,
                    window.decoded_base,
                    #[trigger] window.rows[k],
                )
            &&& window.rows.len() > 0 ==> window.rows[0].number == layout.0.line
                && window.rows[0].continued_before == (layout.0.offset > layout.0.start)
            &&& forall|k: int|
                0 <= k < window.rows.len() - 1 ==> numbered_on(
                    #[trigger] window.rows[k],
                    window.rows[k + 1],
                )
            &&& stands_at(map, window.raw_range.start, window.decoded_base)
            &&& window.rows.len() == layout.1.rows
        },
{
    if let Ok(window) = assembled(index, source, anchor, layout, map) {
        lemma_decoded(map, layout.0.offset as u64, 0);
        lemma_lines(
            source.bytes,
            index.encoding,
            map,
            window.decoded_base,
            layout.0,
            layout.1.end as int,
            layout.1.rows as int,
        );
    }
}

proof fn lemma_floor_near(bytes: Seq<u8>, encoding: DetectedEncoding, offset: int)
    requires
        0 <= offset <= bytes.len(),
    ensures
        floor_of(bytes, encoding, offset) + 4 >= offset,
{
    if offset < bytes.len() && !encoding.wide() {
        super::lemma_character_start(
            bytes,
            if offset < 3 {
                0
            } else {
                offset - 3
            },
            offset,
        );
    }
}

} // verus!
