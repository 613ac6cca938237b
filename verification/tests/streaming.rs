use fcb::identity::{ArenaOwnerId, ByteRange, FileId, QueryGeneration, SourceRevision};
use fcb::search::extents::ExtentConsistency;
use fcb::search::file_search::{judge_consistency, FileSearch, Stamp};
use fcb::search::reader::DetectedEncoding;
use fcb::search::source::{CaptureRequest, SourceEncoding, SourceError, StreamError};
use fcb::search::streaming::{
    complete_prefix, mark_length, ByteBatch, ByteMatch, ReaderSearch, StreamReadError,
    StreamReadOptions, StreamReadState, StreamReadStep, StreamReply, StreamingMode,
    StreamingNeedle,
};

fn owner() -> ArenaOwnerId {
    ArenaOwnerId::new(77).unwrap()
}

fn generation(n: u64) -> QueryGeneration {
    QueryGeneration::new(owner(), n).unwrap()
}

fn request() -> CaptureRequest {
    CaptureRequest::new(
        FileId::new(owner(), 1).unwrap(),
        SourceRevision::new(owner(), 2).unwrap(),
    )
    .unwrap()
}

fn options() -> StreamReadOptions {
    StreamReadOptions {
        generation: generation(1),
        encoding: None,
        max_matches: 10,
        max_bytes: 1_000_000,
        max_read_calls: 1000,
    }
}

fn step() -> StreamReadStep {
    StreamReadStep { max_bytes: 4, max_calls: 2, max_hits: 10 }
}

const UTF8: SourceEncoding = SourceEncoding::Known(DetectedEncoding::Utf8 { has_bom: false });

/// A stand-in for the host's matcher.
#[derive(Default)]
struct Matcher {
    seen: Vec<u8>,
}

impl Matcher {
    fn search(&mut self, wanted: &[u8], held: &[u8], from: usize, to: usize, bytes: usize, hits: usize)
        -> Result<ByteBatch, StreamError>
    {
        let take = bytes.min(to - from);
        let mut batch = ByteBatch { consumed: 0, scanned: self.seen.len() as u64, hits: Vec::new() };
        for byte in &held[from..from + take] {
            if batch.hits.len() == hits {
                break;
            }
            self.seen.push(*byte);
            batch.consumed += 1;
            if self.seen.ends_with(wanted) {
                let end = self.seen.len() as u64;
                batch.hits.push(ByteMatch { start: end - wanted.len() as u64, end });
            }
        }
        batch.scanned = self.seen.len() as u64;
        Ok(batch)
    }
}

fn needle(text: &str) -> StreamingNeedle {
    StreamingNeedle::text(owner(), text, 100, |_| true).unwrap()
}

#[test]
fn needles_are_kept_in_every_encoding() {
    let needle = needle("a\u{e9}");
    assert_eq!(needle.mode(), StreamingMode::ExactText);
    assert_eq!(needle.encoded(None), &vec![0x61, 0xc3, 0xa9]);
    assert_eq!(
        needle.encoded(Some(SourceEncoding::Known(DetectedEncoding::Utf16Le))),
        &vec![0x61, 0, 0xe9, 0]
    );
    assert_eq!(
        needle.encoded(Some(SourceEncoding::Known(DetectedEncoding::Utf16Be))),
        &vec![0, 0x61, 0, 0xe9]
    );
    assert_eq!(needle.text_value(), Some("a\u{e9}".to_string()));
    let raw = StreamingNeedle::raw(owner(), &[0xff], 100, |_| true).unwrap();
    assert_eq!(raw.mode(), StreamingMode::OriginalBytes);
    assert_eq!(raw.text_value(), None);
    assert_eq!(
        StreamingNeedle::raw(owner(), &[], 100, |_| true).err(),
        Some(StreamReadError::Matcher(StreamError::EmptyNeedle))
    );
    assert_eq!(
        StreamingNeedle::raw(owner(), &[1; 4], 3, |_| true).err(),
        Some(StreamReadError::Matcher(StreamError::NeedleTooLong))
    );
    assert_eq!(
        StreamingNeedle::text(owner(), "x", 100, |_| false).err(),
        Some(StreamReadError::ResourceDenied)
    );
}

#[test]
fn text_is_cut_where_a_character_ends() {
    assert_eq!(complete_prefix(&vec![0x61, 0xc3, 0xa9], UTF8), 3);
    assert_eq!(complete_prefix(&vec![0x61, 0xc3], UTF8), 1);
    assert_eq!(complete_prefix(&vec![0xe2, 0x82], UTF8), 0);
    let little = SourceEncoding::Known(DetectedEncoding::Utf16Le);
    assert_eq!(complete_prefix(&vec![0x61, 0, 0x62], little), 2);
    assert_eq!(complete_prefix(&vec![0x3d, 0xd8], little), 0);
    assert_eq!(mark_length(&vec![0xff, 0xfe, 0x61, 0], little), 2);
}

fn run(source: &[u8], needle: &StreamingNeedle, options: StreamReadOptions, length: u64)
    -> (StreamReadState, Vec<ByteRange>)
{
    let mut at = 0;
    let mut matcher = Matcher::default();
    let mut detect = |_: &Vec<u8>| UTF8;
    let mut check = |_: &Vec<u8>, _: usize, _: SourceEncoding, _: u64| Ok::<Option<u64>, SourceError>(None);
    let mut search = ReaderSearch::new(
        request(),
        length,
        needle,
        options,
        100,
        |_| true,
        &mut detect,
        &mut check,
    )
    .unwrap();
    for _ in 0..1000 {
        if search.state() != StreamReadState::Pending {
            break;
        }
        search
            .step(
                step(),
                generation(1),
                &mut |n: usize| {
                    let end = (at + n).min(source.len());
                    let bytes = source[at..end].to_vec();
                    at = end;
                    StreamReply::Bytes(bytes)
                },
                &mut detect,
                &mut check,
                &mut |w: &Vec<u8>, h: &Vec<u8>, f: usize, t: usize, b: usize, n: usize| {
                    matcher.search(w, h, f, t, b, n)
                },
                &mut || false,
            )
            .unwrap();
    }
    let state = search.state();
    let hits = search.hits().iter().map(|hit| hit.original_range()).collect();
    (state, hits)
}

#[test]
fn a_stopped_stream_keeps_what_it_found() {
    let needle = needle("ab");
    let mut matcher = Matcher::default();
    let mut detect = |_: &Vec<u8>| UTF8;
    let mut check = |_: &Vec<u8>, _: usize, _: SourceEncoding, _: u64| Ok::<Option<u64>, SourceError>(None);
    let mut search = ReaderSearch::new(
        request(),
        8,
        &needle,
        options(),
        100,
        |_| true,
        &mut detect,
        &mut check,
    )
    .unwrap();
    let mut scan = |w: &Vec<u8>, h: &Vec<u8>, f: usize, t: usize, b: usize, n: usize| {
        matcher.search(w, h, f, t, b, n)
    };
    let mut first = |_: usize| StreamReply::Bytes(b"abab".to_vec());
    search
        .step(step(), generation(1), &mut first, &mut detect, &mut check, &mut scan, &mut || false)
        .unwrap();
    assert_eq!(search.hits().len(), 2);
    let read = search.stats().bytes_read;
    // Told to stop behind an interrupted read: the call counts, nothing else does.
    let mut polls = 0;
    let stopped = search.step(
        step(),
        generation(1),
        &mut |_: usize| StreamReply::Interrupted,
        &mut detect,
        &mut check,
        &mut scan,
        &mut || {
            polls += 1;
            polls == 3
        },
    );
    assert_eq!(stopped, Ok(StreamReadState::Canceled));
    assert_eq!(search.state(), StreamReadState::Canceled);
    assert_eq!(search.hits().len(), 2);
    assert_eq!(search.stats().bytes_read, read);
    assert_eq!(search.stats().interrupted_calls, 1);
}

#[test]
fn a_stream_is_searched_across_its_chunks() {
    let needle = needle("needle");
    let source = b"some needles, one needle";
    let (state, hits) = run(source, &needle, options(), source.len() as u64);
    assert_eq!(state, StreamReadState::Complete);
    assert_eq!(
        hits,
        vec![ByteRange { start: 5, end: 11 }, ByteRange { start: 18, end: 24 }]
    );
    let (state, hits) = run(source, &needle, StreamReadOptions { max_matches: 1, ..options() }, 24);
    assert_eq!(state, StreamReadState::Truncated);
    assert_eq!(hits.len(), 1);
    let (state, _) = run(source, &needle, StreamReadOptions { max_bytes: 8, ..options() }, 24);
    assert_eq!(state, StreamReadState::ByteLimit);
    let (state, _) = run(source, &needle, options(), 40);
    assert_eq!(state, StreamReadState::ShortRead);
}

#[test]
fn files_that_change_while_read_are_reported() {
    let stamp = |length, modified| Stamp { length, modified: Some(modified) };
    let complete = StreamReadState::Complete;
    assert_eq!(
        judge_consistency(complete, stamp(4, 1), Some(stamp(4, 1))),
        ExtentConsistency::UnchangedMetadata
    );
    assert_eq!(
        judge_consistency(complete, stamp(4, 1), Some(stamp(5, 1))),
        ExtentConsistency::ChangedDuringRead
    );
    assert_eq!(
        judge_consistency(complete, stamp(4, 1), Some(stamp(4, 2))),
        ExtentConsistency::ChangedDuringRead
    );
    assert_eq!(
        judge_consistency(complete, stamp(4, 1), None),
        ExtentConsistency::MetadataUnavailable
    );
    let needle = needle("x");
    let mut detect = |_: &Vec<u8>| UTF8;
    let mut check = |_: &Vec<u8>, _: usize, _: SourceEncoding, _: u64| Ok::<Option<u64>, SourceError>(None);
    let job = FileSearch::new(
        true,
        Some(stamp(0, 1)),
        true,
        request(),
        &needle,
        options(),
        100,
        |_| true,
        &mut detect,
        &mut check,
    );
    assert!(job.is_ok());
    let refused = FileSearch::new(
        true,
        Some(stamp(0, 1)),
        false,
        request(),
        &needle,
        options(),
        100,
        |_| true,
        &mut detect,
        &mut check,
    );
    assert!(refused.is_err());
}
