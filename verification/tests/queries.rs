use fcb::envelope::Sha256Digest;
use fcb::identity::{ArenaOwnerId, ByteRange, FileId, QueryGeneration, SourceRevision};
use fcb::search::archive::{PagedMember, PagedMemberData, SnapshotDirectory};
use fcb::search::expression::plan::{ExpressionPlan, ParsedQuery};
use fcb::search::expression::query::{ExpressionOptions, ExpressionQuery, ExpressionState};
use fcb::search::member_scan::VerifiedMember;
use fcb::search::paged_snapshot::query::{
    EngineLimits, PagedQuery, PagedQueryOptions, PagedQueryState,
};
use fcb::search::paged_snapshot::{PagedCapture, PagedSearchError};
use fcb::search::reader::DetectedEncoding;
use fcb::search::snapshot_comparison::{
    ComparisonSide, SnapshotCompareError, SnapshotComparison, SnapshotPair,
};
use fcb::search::snapshot_index::refresh::{IndexLimits, SegmentImage};
use fcb::search::snapshot_index::{gram_at, SnapshotIndex};
use fcb::search::source::{CaptureRequest, SourceEncoding, SourceError, StreamError};
use fcb::search::streaming::{ByteBatch, ByteMatch, StreamReadStep, StreamingNeedle};

const SOURCES: [&[u8]; 3] = [b"alpha beta alpha", b"gamma delta", b"alpha gamma"];

fn owner() -> ArenaOwnerId {
    ArenaOwnerId::new(8).unwrap()
}

fn generation(n: u64) -> QueryGeneration {
    QueryGeneration::new(owner(), n).unwrap()
}

fn number(n: usize) -> Sha256Digest {
    Sha256Digest::new([n as u8 + 1; 32])
}

fn directory() -> SnapshotDirectory {
    let mut members: Vec<PagedMember> = SOURCES
        .iter()
        .enumerate()
        .map(|(k, source)| PagedMember {
            path: format!("src/{k}.rs").into_bytes(),
            observed_bytes: source.len() as u64,
            data: PagedMemberData::Captured { byte_length: source.len(), digest: number(k) },
        })
        .collect();
    members.push(PagedMember {
        path: b"src/9.rs".to_vec(),
        observed_bytes: 5,
        data: PagedMemberData::Unavailable,
    });
    SnapshotDirectory {
        owner: owner(),
        digest: number(100),
        members,
        discovery_complete: true,
        policy: String::from("all"),
    }
}

fn member(ordinal: usize) -> VerifiedMember {
    VerifiedMember {
        ordinal,
        archive: number(100),
        source: number(ordinal),
        bytes: SOURCES[ordinal].to_vec(),
    }
}

fn step() -> StreamReadStep {
    StreamReadStep { max_bytes: 4096, max_calls: 64, max_hits: 64 }
}

fn limits() -> EngineLimits {
    EngineLimits { needle_bytes: 256, read_calls: 64 }
}

fn detect(_: &Vec<u8>) -> SourceEncoding {
    SourceEncoding::Known(DetectedEncoding::Utf8 { has_bom: false })
}

fn check(_: &Vec<u8>, _: usize, _: SourceEncoding, _: u64) -> Result<Option<u64>, SourceError> {
    Ok(None)
}

/// A stand-in for the host's matcher, for sources that fit in one chunk.
fn search(
    wanted: &Vec<u8>,
    held: &Vec<u8>,
    from: usize,
    to: usize,
    _: usize,
    _: usize,
) -> Result<ByteBatch, StreamError> {
    let part = &held[from..to];
    let hits = (0..part.len())
        .filter(|at| part[*at..].starts_with(wanted))
        .map(|at| ByteMatch { start: at as u64, end: (at + wanted.len()) as u64 })
        .collect();
    Ok(ByteBatch { consumed: part.len(), scanned: part.len() as u64, hits })
}

#[test]
fn a_paged_query_finds_every_occurrence_of_every_member() {
    let directory = directory();
    let needle = StreamingNeedle::text(owner(), "alpha", 256, |_| true).unwrap();
    let options = PagedQueryOptions {
        generation: generation(1),
        first_file: FileId::new(owner(), 10).unwrap(),
        first_revision: SourceRevision::new(owner(), 20).unwrap(),
        max_matches: 10,
    };
    let mut query =
        PagedQuery::new(&directory, &needle, options, limits(), (1, 2, 3), |_| true).unwrap();
    for _ in 0..100 {
        if query.state() != PagedQueryState::Pending {
            break;
        }
        query
            .step(
                step(),
                generation(1),
                &mut |n: usize| Ok(member(n)),
                |_| true,
                &mut detect,
                &mut check,
                &mut search,
                &mut || false,
            )
            .unwrap();
    }
    assert_eq!(query.state(), PagedQueryState::Complete);
    let report = query.finish().unwrap();
    let found: Vec<(usize, ByteRange)> =
        report.hits().iter().map(|hit| (hit.ordinal(), hit.original_range())).collect();
    let range = |start, end| ByteRange { start, end };
    assert_eq!(found, vec![(0, range(0, 5)), (0, range(11, 16)), (2, range(0, 5))]);
    assert_eq!(report.unavailable_files(), 1);
    assert!(!report.is_complete());
    assert_eq!(report.validate_delivery(&number(100), generation(1)), Ok(()));
    let hit = report.hits()[1];
    let capture = PagedCapture::open_hit(
        &directory,
        hit,
        generation(1),
        (5, 6),
        |n| Ok(member(n)),
        |_| true,
        |path: &Vec<u8>| String::from_utf8(path.clone()).unwrap(),
        || false,
    )
    .unwrap();
    assert_eq!(capture.hit_bytes(hit).unwrap(), b"alpha");
    let stale = PagedCapture::open_hit(
        &directory,
        hit,
        generation(2),
        (5, 6),
        |n| Ok(member(n)),
        |_| true,
        |path: &Vec<u8>| String::from_utf8(path.clone()).unwrap(),
        || false,
    );
    assert_eq!(stale.err(), Some(PagedSearchError::StaleQuery));
}

/// A plan whose path filter is a part that no path may have.
fn plan(excluded: &'static str) -> ExpressionPlan<&'static str> {
    ExpressionPlan::parse(
        owner(),
        "alpha gamma",
        1024,
        256,
        1,
        10,
        |_, _| true,
        |_| {
            Ok(ParsedQuery {
                primary_needle: "alpha".to_string(),
                exclusion_terms: Vec::new(),
                conjunction_terms: vec!["gamma".to_string()],
                path_filters: excluded,
                lang_filters: (),
            })
        },
    )
    .unwrap()
}

fn index(directory: &SnapshotDirectory) -> SnapshotIndex {
    SnapshotIndex::build(
        directory,
        IndexLimits {
            max_total_grams: 1000,
            max_grams_per_file: 1000,
            max_source_bytes_per_file: 4096,
            max_source_bytes_total: 65_536,
            max_scratch_bytes: 4096,
        },
        [1, 2, 3, 4],
        |_| true,
        |n| Ok(member(n)),
        |_| true,
        |loaded, bounds| {
            let bytes = loaded.bytes.as_slice();
            assert_eq!(bounds.max_source_bytes_total, bytes.len() as u64);
            let mut grams: Vec<u32> = (0..bytes.len() - 2).map(|i| gram_at(bytes, i)).collect();
            grams.sort_unstable();
            grams.dedup();
            Ok(SegmentImage { indexed: true, utf8: true, grams, examined: bytes.len() as u64 })
        },
        || false,
    )
    .unwrap()
}

fn run(mut query: ExpressionQuery<'_, '_, &'static str>) -> (Vec<(usize, u64)>, usize, usize) {
    for _ in 0..200 {
        if query.state() != ExpressionState::Pending {
            break;
        }
        query
            .step(
                step(),
                generation(1),
                &mut |path: &Vec<u8>| format!("{path:?}"),
                &mut |key: &str, excluded: &&'static str| !key.contains(*excluded),
                &mut |_: &str, _: &()| true,
                &mut |n: usize| Ok(member(n)),
                |_| true,
                &mut detect,
                &mut check,
                &mut search,
                &mut || false,
            )
            .unwrap();
    }
    let stats = query.stats();
    let report = query.finish().unwrap();
    assert_eq!(report.state(), ExpressionState::Complete);
    let hits = report.hits().iter().map(|hit| (hit.ordinal, hit.range.start)).collect();
    (hits, stats.members_loaded, stats.index_eliminated)
}

#[test]
fn an_index_spares_members_and_changes_no_answer() {
    let directory = directory();
    let plan = plan("none");
    let index = index(&directory);
    let options = ExpressionOptions {
        generation: generation(1),
        first_file: FileId::new(owner(), 10).unwrap(),
        first_revision: SourceRevision::new(owner(), 20).unwrap(),
        max_matches: 10,
        max_scan_bytes: 1_000_000,
    };
    let plain = ExpressionQuery::new(&directory, &plan, options, limits(), (1, 2, 3), |_| true)
        .unwrap();
    let indexed = ExpressionQuery::new_indexed(
        &directory,
        &plan,
        &index,
        options,
        limits(),
        (1, 2, 3),
        |_| true,
    )
    .unwrap();
    let (answer, loaded, spared) = run(plain);
    assert_eq!(answer, vec![(2, 0)]);
    assert_eq!((loaded, spared), (3, 0));
    let (same, fewer, spared) = run(indexed);
    assert_eq!(same, answer);
    assert_eq!((fewer, spared), (2, 1));
}

#[test]
fn members_that_the_plan_filters_are_not_loaded() {
    let directory = directory();
    let plan = plan("2.rs");
    let options = ExpressionOptions {
        generation: generation(1),
        first_file: FileId::new(owner(), 10).unwrap(),
        first_revision: SourceRevision::new(owner(), 20).unwrap(),
        max_matches: 10,
        max_scan_bytes: 1_000_000,
    };
    let query = ExpressionQuery::new(&directory, &plan, options, limits(), (1, 2, 3), |_| true)
        .unwrap();
    assert_eq!(run(query), (vec![], 2, 0));
}

#[test]
fn a_pair_holds_the_bytes_of_both_sides() {
    let before = directory();
    let mut after = directory();
    after.digest = number(101);
    after.members[0].data = PagedMemberData::Captured { byte_length: 5, digest: number(7) };
    after.members[0].observed_bytes = 5;
    let mut comparison = SnapshotComparison::new(&before, &after, generation(1)).unwrap();
    let change = comparison.next(&before, &after, generation(1), || false).unwrap().unwrap();
    let request = |n| {
        CaptureRequest::new(
            FileId::new(owner(), 1).unwrap(),
            SourceRevision::new(owner(), n).unwrap(),
        )
        .unwrap()
    };
    let pair = SnapshotPair::load(
        &before,
        &after,
        change,
        (request(1), request(2)),
        generation(1),
        (3, 4),
        |_| true,
        |n| Ok(member(n)),
        |n| {
            Ok(VerifiedMember {
                ordinal: n,
                archive: number(101),
                source: number(7),
                bytes: b"later".to_vec(),
            })
        },
        |_, _| true,
        |path: &Vec<u8>| String::from_utf8(path.clone()).unwrap(),
        || false,
    )
    .unwrap();
    assert_eq!(pair.bytes(ComparisonSide::Before), &SOURCES[0].to_vec());
    assert_eq!(pair.bytes(ComparisonSide::After), &b"later".to_vec());
    assert_eq!(
        pair.compare(generation(1), 7, |pair, at, limit| {
            assert_eq!((at, limit), (generation(1), 7));
            Ok::<_, &str>(pair.request(ComparisonSide::After))
        }),
        Ok(request(2))
    );
    assert_eq!(
        pair.compare(generation(2), 7, |_, _, _| Ok::<_, &str>(())),
        Err(SnapshotCompareError::Stale)
    );
    assert_eq!(
        pair.compare(generation(1), 7, |_, _, _| Err::<(), _>("too long")),
        Err(SnapshotCompareError::Analysis("too long"))
    );
}
