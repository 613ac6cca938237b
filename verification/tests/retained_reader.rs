use std::sync::Arc;

use fcb::capture::SourceCapture;
use fcb::identity::{ArenaOwnerId, FileId, QueryGeneration, SourceRevision};
use fcb::search::reader::retained::{RetainedReadingSeek, RetainedSourceReader};
use fcb::search::reader::{
    DetectedEncoding, LineNumber, ReaderError, ReaderLimits, ReadingAnchor, ReadingSeekState,
    ReadingTarget, MAX_READER_STEP_BYTES,
};
use fcb::search::reading_window::{MappingSpan, ReadingWindowOptions, SpanKind, WindowMap};

fn owner() -> ArenaOwnerId {
    ArenaOwnerId::new(611).unwrap()
}

fn generation(n: u64) -> QueryGeneration {
    QueryGeneration::new(owner(), n).unwrap()
}

fn source(bytes: &[u8]) -> Arc<SourceCapture> {
    Arc::new(
        SourceCapture::from_bytes(
            owner(),
            FileId::new(owner(), 1).unwrap(),
            SourceRevision::new(owner(), 1).unwrap(),
            "source.rs".to_string(),
            bytes.to_vec(),
        )
        .unwrap(),
    )
}

fn detect(bytes: &[u8]) -> DetectedEncoding {
    if bytes.starts_with(&[0xff, 0xfe]) {
        DetectedEncoding::Utf16Le
    } else if bytes.starts_with(&[0xfe, 0xff]) {
        DetectedEncoding::Utf16Be
    } else {
        DetectedEncoding::Utf8 { has_bom: bytes.starts_with(&[0xef, 0xbb, 0xbf]) }
    }
}

/// Decodes well-formed text, one span for each character.
fn decode(
    bytes: &[u8],
    from: usize,
    to: usize,
    encoding: DetectedEncoding,
) -> Option<WindowMap> {
    assert_ne!(encoding, DetectedEncoding::Utf8 { has_bom: true });
    let mut text = String::new();
    let mut spans = Vec::new();
    let mut at = from as u64;
    let chars: Vec<(char, u64)> = match encoding {
        DetectedEncoding::Utf8 { .. } => std::str::from_utf8(&bytes[from..to])
            .ok()?
            .chars()
            .map(|c| (c, c.len_utf8() as u64))
            .collect(),
        _ => {
            let units: Vec<u16> = bytes[from..to]
                .chunks(2)
                .map(|p| {
                    if encoding == DetectedEncoding::Utf16Le {
                        u16::from_le_bytes([p[0], p[1]])
                    } else {
                        u16::from_be_bytes([p[0], p[1]])
                    }
                })
                .collect();
            char::decode_utf16(units)
                .map(|c| c.unwrap())
                .map(|c| (c, 2 * c.len_utf16() as u64))
                .collect()
        }
    };
    for (c, width) in chars {
        let start = text.len() as u64;
        text.push(c);
        spans.push(MappingSpan {
            raw_start: at,
            raw_end: at + width,
            decoded_start: start,
            decoded_end: text.len() as u64,
            kind: SpanKind::Exact,
        });
        at += width;
    }
    Some(WindowMap { text, raw_base: from as u64, spans })
}

fn reader(bytes: &[u8]) -> RetainedSourceReader {
    RetainedSourceReader::new(
        &source(bytes),
        detect(bytes),
        ReaderLimits { max_checkpoints: 8, min_checkpoint_bytes: 16 },
        [1, 2],
        |_| true,
        |_| true,
    )
    .unwrap()
}

fn finish(r: &mut RetainedSourceReader, s: &mut RetainedReadingSeek) -> ReadingAnchor {
    while s.state() == ReadingSeekState::Pending {
        s.step(64, s.generation(), || false).unwrap();
        r.learn(s).unwrap();
    }
    match s.state() {
        ReadingSeekState::Ready(a) => a,
        other => panic!("unexpected {other:?}"),
    }
}

#[test]
fn construction_shares_bytes_and_does_not_scan_or_invent_total_lines() {
    let source = source(b"a\nb\n");
    let r = RetainedSourceReader::new(
        &source,
        detect(b"a\nb\n"),
        ReaderLimits::default(),
        [1, 2],
        |_| true,
        |_| true,
    )
    .unwrap();
    assert!(std::ptr::eq(source.bytes(), r.source().bytes()));
    assert_eq!(r.progress().indexed_through, 0);
    assert_eq!(r.progress().known_lines, 1);
    assert_eq!(r.progress().total_lines, None);
}

#[test]
fn far_seek_steps_are_bounded_and_learned_work_is_not_repeated() {
    let mut r = reader(&b"x\n".repeat(10000));
    let target = ReadingTarget::Line(LineNumber::new(8001).unwrap());
    let mut first = r.seek(target, generation(1), |_| true).unwrap();
    assert_eq!(first.state(), ReadingSeekState::Pending);
    first.step(64, generation(1), || false).unwrap();
    assert_eq!(first.last_step_bytes(), 64);
    r.learn(&first).unwrap();
    let anchor = finish(&mut r, &mut first);
    assert_eq!(anchor.offset(), 16000);
    assert_eq!(anchor.line_number(), 8001);
    let second = r.seek(target, generation(2), |_| true).unwrap();
    assert!(matches!(second.state(), ReadingSeekState::Ready(_)));
    assert_eq!(second.scanned_bytes(), 0);
    assert!(r.progress().checkpoint_count <= 8);
}

#[test]
fn sparse_index_remains_bounded_and_giant_lines_do_not_become_line_tables() {
    let mut r = reader(&vec![b'x'; 200000]);
    while r.progress().total_lines.is_none() {
        let p = r.index_step(usize::MAX, || false).unwrap();
        assert!(p.step_bytes <= MAX_READER_STEP_BYTES);
        assert!(p.checkpoint_count <= 8);
    }
    assert_eq!(r.progress().total_lines, Some(1));
    let mut s = r.seek(ReadingTarget::Byte(150001), generation(1), |_| true).unwrap();
    let a = finish(&mut r, &mut s);
    assert_eq!(a.line_number(), 1);
    assert_eq!(a.line_start(), 0);
    assert_eq!(a.offset(), 150001);
}

#[test]
fn learning_never_exceeds_the_reserved_checkpoints() {
    let data = b"line of text\n".repeat(500);
    let mut r = reader(&data);
    let capacity = r.checkpoint_capacity();
    assert!(capacity <= 8);
    let mut s = r.seek(ReadingTarget::Byte(6000), generation(1), |_| true).unwrap();
    for _ in 0..2000 {
        let _ = s.step(5, generation(1), || false);
        r.learn(&s).unwrap();
        assert_eq!(r.checkpoint_capacity(), capacity);
        assert!(r.progress().checkpoint_count <= capacity);
    }
    while r.index_step(100, || false).unwrap().total_lines.is_none() {
        assert!(r.progress().checkpoint_count <= capacity);
    }
    assert_eq!(r.checkpoint_capacity(), capacity);
    assert!(r.progress().checkpoint_count <= capacity);
}

#[test]
fn newline_and_utf16_semantics_match_the_existing_reader() {
    for little in [true, false] {
        let data: Vec<u8> = "\u{feff}a\r\nb\rc\n"
            .encode_utf16()
            .flat_map(|u| if little { u.to_le_bytes() } else { u.to_be_bytes() })
            .collect();
        let mut r = reader(&data);
        let target = ReadingTarget::Line(LineNumber::new(4).unwrap());
        let mut s = r.seek(target, generation(1), |_| true).unwrap();
        let a = finish(&mut r, &mut s);
        assert_eq!(a.offset(), data.len() as u64);
        assert_eq!(a.line_number(), 4);
        assert_eq!(r.progress().total_lines, Some(4));
        let window = r
            .window(
                a,
                generation(1),
                ReadingWindowOptions::default(),
                |_| true,
                |from, to, encoding| decode(&data, from, to, encoding),
                || false,
            )
            .unwrap();
        assert_eq!(window.text(), "");
        assert_eq!(window.lines()[0].number, 4);
    }
}

#[test]
fn empty_capture_and_out_of_range_are_distinct() {
    let r = reader(b"");
    assert_eq!(r.progress().total_lines, Some(1));
    assert!(matches!(
        r.seek(ReadingTarget::Line(LineNumber::new(1).unwrap()), generation(1), |_| true)
            .unwrap()
            .state(),
        ReadingSeekState::Ready(_)
    ));
    assert_eq!(
        r.seek(ReadingTarget::Line(LineNumber::new(2).unwrap()), generation(2), |_| true)
            .unwrap()
            .state(),
        ReadingSeekState::OutOfRange
    );
}

#[test]
fn independent_requests_survive_reader_drop() {
    let r = reader(b"a\nb\nc\n");
    let mut a =
        r.seek(ReadingTarget::Line(LineNumber::new(2).unwrap()), generation(1), |_| true).unwrap();
    let mut c =
        r.seek(ReadingTarget::Line(LineNumber::new(3).unwrap()), generation(2), |_| true).unwrap();
    drop(r);
    a.cancel();
    assert!(matches!(
        c.step(64, generation(2), || false).unwrap(),
        ReadingSeekState::Ready(_)
    ));
    assert_eq!(c.source().bytes(), b"a\nb\nc\n");
}

#[test]
fn stale_step_does_not_cancel_the_valid_request() {
    let mut r = reader(b"a\nb\n");
    let mut s =
        r.seek(ReadingTarget::Line(LineNumber::new(3).unwrap()), generation(2), |_| true).unwrap();
    assert_eq!(s.step(64, generation(1), || false), Err(ReaderError::StaleQuery));
    assert_eq!(s.state(), ReadingSeekState::Pending);
    assert_eq!(s.scanned_bytes(), 0);
    assert_eq!(finish(&mut r, &mut s).line_number(), 3);
}

#[test]
fn canceled_indexing_keeps_a_valid_prefix() {
    let mut r = reader(&b"x\n".repeat(100));
    let mut calls = 0;
    let p = r
        .index_step(64, || {
            calls += 1;
            calls == 5
        })
        .unwrap();
    assert!(p.canceled);
    assert!(p.indexed_through > 0);
    assert!(!r.index_step(64, || false).unwrap().canceled);
}

#[test]
fn reused_ids_cannot_bind_a_checkpoint_to_changed_bytes() {
    let mut r = reader(b"a\nb\n");
    assert_eq!(r.validate_source(&source(b"changed")), Err(ReaderError::StaleSource));
    let other = RetainedSourceReader::new(
        &source(b"other"),
        detect(b"other"),
        ReaderLimits::default(),
        [10, 11],
        |_| true,
        |_| true,
    )
    .unwrap();
    let s = other.seek(ReadingTarget::Byte(0), generation(1), |_| true).unwrap();
    assert_eq!(r.learn(&s), Err(ReaderError::StaleSource));
    assert_eq!(r.progress().indexed_through, 0);
}

#[test]
fn exact_window_continuations_do_not_rescan_the_prefix() {
    let data = b"a\r\nb\rc\n";
    let r = reader(data);
    let s = r.seek(ReadingTarget::Byte(0), generation(1), |_| true).unwrap();
    let ReadingSeekState::Ready(a) = s.state() else { panic!("ready at start") };
    let options = ReadingWindowOptions { max_bytes: 32, max_lines: 1 };
    let next = {
        let w = r
            .window(a, generation(1), options, |_| true, |f, t, e| decode(data, f, t, e), || false)
            .unwrap();
        assert_eq!(w.text(), "a\r\n");
        w.next_anchor().unwrap()
    };
    let w = r
        .window(next, generation(1), options, |_| true, |f, t, e| decode(data, f, t, e), || false)
        .unwrap();
    assert_eq!(w.text(), "b\r");
    assert_eq!(w.lines()[0].number, 2);
    assert_eq!(r.progress().indexed_through, 0);
}

#[test]
fn a_reader_keeps_only_its_own_source() {
    let kept = source(b"kept");
    let r = RetainedSourceReader::new(
        &kept,
        detect(b"kept"),
        ReaderLimits::default(),
        [1, 2],
        |_| true,
        |_| true,
    )
    .unwrap();
    assert_eq!(r.validate_source(&kept), Ok(()));
    assert!(matches!(
        RetainedSourceReader::new(
            &kept,
            detect(b"kept"),
            ReaderLimits::default(),
            [1, 1],
            |_| true,
            |_| true
        ),
        Err(ReaderError::InvalidLimits)
    ));
    assert_eq!(ReaderError::StaleQuery.code(), "READER_STALE_QUERY");
}

#[test]
fn a_request_that_shares_no_capture_is_not_learned_from() {
    let data = b"x\n".repeat(100);
    let mut r = reader(&data);
    let mut s = r
        .seek(ReadingTarget::Line(LineNumber::new(20).unwrap()), generation(1), |_| true)
        .unwrap();
    while s.state() == ReadingSeekState::Pending {
        s.step(64, s.generation(), || false).unwrap();
    }
    assert_eq!(r.learn_shared(&s, false), Err(ReaderError::StaleSource));
    assert_eq!(r.progress().indexed_through, 0);
    assert_eq!(r.learn_shared(&s, true), Ok(()));
    let through = r.progress().indexed_through;
    assert_eq!(through, 38);
    // What is already known is not given up.
    let early = r.seek(ReadingTarget::Byte(0), generation(2), |_| true).unwrap();
    assert_eq!(r.learn_shared(&early, true), Ok(()));
    assert_eq!(r.progress().indexed_through, through);
}

#[test]
fn a_marked_text_is_decoded_without_its_mark() {
    let data = "\u{feff}one\n".as_bytes();
    let r = reader(data);
    let s = r.seek(ReadingTarget::Byte(0), generation(1), |_| true).unwrap();
    let ReadingSeekState::Ready(a) = s.state() else { panic!("ready at start") };
    let mut asked = Vec::new();
    let window = r
        .window(
            a,
            generation(1),
            ReadingWindowOptions::default(),
            |_| true,
            |from, to, encoding| {
                asked.push((from, to, encoding));
                decode(data, from, to, encoding)
            },
            || false,
        )
        .unwrap();
    assert_eq!(window.line_text(0), Some("one"));
    assert_eq!(asked, vec![(3, 7, DetectedEncoding::Utf8 { has_bom: false })]);
}
