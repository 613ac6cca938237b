use fcb::identity::{ArenaOwnerId, ByteRange, FileId, QueryGeneration, SourceRevision};
use fcb::search::extent_navigation::{
    open_atlas_extent, open_path_extent, AtlasNavigationError, ExtentActivationError,
    NativeSourceIdentity, PathNavigationTarget, RootId, SearchManifestId,
};
use fcb::search::extent_query::{ExtentQuery, ExtentQueryError, ExtentQueryOptions, ExtentQueryState};
use fcb::search::extents::{
    count_lines, open_extent, ExtentConsistency, ExtentError, ExtentViewError, FcbError,
    ObservedExtent,
};
use fcb::search::source::{CaptureRequest, StreamError};
use fcb::search::streaming::{ByteBatch, ByteMatch};

fn owner(n: u64) -> ArenaOwnerId {
    ArenaOwnerId::new(n).unwrap()
}

fn generation(n: u64) -> QueryGeneration {
    QueryGeneration::new(owner(5), n).unwrap()
}

fn file(n: u64) -> FileId {
    FileId::new(owner(5), n).unwrap()
}

fn extent() -> ObservedExtent {
    ObservedExtent {
        request: CaptureRequest::new(file(1), SourceRevision::new(owner(5), 2).unwrap()).unwrap(),
        observed_length: 100,
        start: 10,
        bytes: b"one two one".to_vec(),
        request_filled: true,
        consistency: ExtentConsistency::UnchangedMetadata,
    }
}

#[test]
fn an_extent_gives_only_the_bytes_that_were_read() {
    let view = open_extent(owner(5), extent()).unwrap();
    assert_eq!(view.extent().range(), ByteRange { start: 10, end: 21 });
    assert_eq!(view.raw_selection(ByteRange { start: 14, end: 17 }).unwrap(), b"two");
    for (start, end) in [(9, 12), (20, 22), (17, 14)] {
        assert_eq!(
            view.raw_selection(ByteRange { start, end }).err(),
            Some(ExtentViewError::Extent(ExtentError::InvalidRange))
        );
    }
    assert_eq!(view.frame_plan().range, ByteRange { start: 10, end: 21 });
    assert_eq!(
        open_extent(owner(6), extent()).err(),
        Some(ExtentViewError::Source(FcbError::OwnerMismatch))
    );
    assert_eq!(count_lines("a\nb\r\nc"), 3);
}

fn search(
    wanted: &[u8],
    held: &[u8],
    from: usize,
    bytes: usize,
    hits: usize,
) -> Result<ByteBatch, StreamError> {
    let end = (from + bytes).min(held.len());
    let mut batch = ByteBatch { consumed: 0, scanned: from as u64, hits: Vec::new() };
    for at in from..end {
        if batch.hits.len() == hits {
            break;
        }
        batch.consumed += 1;
        if held[..at + 1].ends_with(wanted) {
            let end = at as u64 + 1;
            batch.hits.push(ByteMatch { start: end - wanted.len() as u64, end });
        }
    }
    batch.scanned += batch.consumed as u64;
    Ok(batch)
}

#[test]
fn a_query_finds_every_hit_of_its_scope() {
    let view = open_extent(owner(5), extent()).unwrap();
    let options = ExtentQueryOptions { generation: generation(1), max_matches: 10 };
    let scope = ByteRange { start: 10, end: 21 };
    let mut query = ExtentQuery::raw(&view, scope, b"one", options, 100, |_| true).unwrap();
    for _ in 0..20 {
        if query.state() != ExtentQueryState::Pending {
            break;
        }
        query.step(4, generation(1), &mut search, &mut || false).unwrap();
    }
    assert_eq!(query.state(), ExtentQueryState::Finished);
    assert!(query.scope_complete());
    assert!(query.has_unsearched_source());
    let found: Vec<ByteRange> = query.hits().iter().map(|hit| hit.original_range()).collect();
    assert_eq!(
        found,
        vec![ByteRange { start: 10, end: 13 }, ByteRange { start: 18, end: 21 }]
    );
    assert_eq!(query.hits()[1].original_bytes().unwrap(), b"one");
    assert_eq!(query.hits()[0].validate_delivery(&view, generation(1)), Ok(()));
    assert_eq!(
        query.hits()[0].validate_delivery(&view, generation(2)),
        Err(ExtentQueryError::StaleGeneration)
    );
    let refused = ExtentQuery::raw(&view, scope, b"one", options, 2, |_| true).err();
    assert_eq!(refused, Some(ExtentQueryError::InvalidLimits));
    let empty = ExtentQuery::raw(&view, scope, b"", options, 100, |_| true).err();
    assert_eq!(empty, Some(ExtentQueryError::Stream(StreamError::EmptyNeedle)));
    let denied = ExtentQuery::raw(&view, scope, b"one", options, 100, |_| false).err();
    assert_eq!(denied, Some(ExtentQueryError::ResourceDenied));
}

#[test]
fn canceled_queries_stay_canceled() {
    let view = open_extent(owner(5), extent()).unwrap();
    let options = ExtentQueryOptions { generation: generation(1), max_matches: 10 };
    let scope = ByteRange { start: 10, end: 21 };
    let mut query = ExtentQuery::raw(&view, scope, b"one", options, 100, |_| true).unwrap();
    query.cancel();
    assert_eq!(query.state(), ExtentQueryState::Canceled);
    assert!(!query.scope_complete());
}

fn target() -> PathNavigationTarget {
    PathNavigationTarget {
        index: SearchManifestId { owner: owner(5), value: 1 },
        generation: generation(1),
        root: RootId { owner: owner(5), value: 3 },
        file: file(1),
        native_path: b"a.rs".to_vec(),
    }
}

#[test]
fn a_delivery_must_answer_its_request() {
    let index = SearchManifestId { owner: owner(5), value: 1 };
    let native = |path: &[u8]| NativeSourceIdentity {
        root: RootId { owner: owner(5), value: 3 },
        path: path.to_vec(),
    };
    let open = |target: &PathNavigationTarget, generation, native: &NativeSourceIdentity| {
        open_path_extent(owner(5), target, index, generation, native, extent()).err()
    };
    assert_eq!(open(&target(), generation(1), &native(b"a.rs")), None);
    assert_eq!(
        open(&target(), generation(2), &native(b"a.rs")),
        Some(ExtentActivationError::Source(FcbError::StaleGeneration))
    );
    assert_eq!(
        open(&target(), generation(1), &native(b"b.rs")),
        Some(ExtentActivationError::Source(FcbError::StaleGeneration))
    );
    let mut other = target();
    other.file = file(2);
    assert_eq!(
        open(&other, generation(1), &native(b"a.rs")),
        Some(ExtentActivationError::Source(FcbError::SourceNotFound))
    );
    other = target();
    other.root = RootId { owner: owner(5), value: 4 };
    assert_eq!(
        open(&other, generation(1), &native(b"a.rs")),
        Some(ExtentActivationError::Source(FcbError::OwnerMismatch))
    );
    assert!(open_atlas_extent(owner(5), file(1), Ok(()), extent()).is_ok());
    assert_eq!(
        open_atlas_extent(owner(5), file(2), Ok(()), extent()).err(),
        Some(ExtentActivationError::Atlas(AtlasNavigationError::WrongCapture))
    );
    let stale = Err(AtlasNavigationError::StaleTarget);
    assert_eq!(
        open_atlas_extent(owner(5), file(1), stale, extent()).err(),
        Some(ExtentActivationError::Atlas(AtlasNavigationError::StaleTarget))
    );
}
