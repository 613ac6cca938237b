use fcb::envelope::Sha256Digest;
use fcb::identity::{ArenaOwnerId, ByteRange, FileId, QueryGeneration, SourceRevision};
use fcb::search::extent_navigation::SearchManifestId;
use fcb::search::reader::{DetectedEncoding, ReaderLimits, ReadingSeekState, ReadingTarget};
use fcb::search::reading_window::{MappingSpan, ReadingWindowOptions, SpanKind, WindowMap};
use fcb::search::snapshot::{
    export_workspace, SavedData, SavedEntry, SavedSourceError, SavedWorkspace, SnapshotData,
    SnapshotView,
};
use fcb::search::source::{CaptureRequest, CompleteCapture, SourceError};
use fcb::search::workspace::captures::{
    ManifestLimits, MembershipState, WorkspaceCaptureFailure, WorkspaceCaptures,
};
use fcb::search::workspace::{
    DiscoveredEntry, DiscoveryAggregate, DiscoveryKind, DiscoveryPage, DiscoveryReply,
    RepositoryRules, RuleObservation, WorkspaceCatalog, WorkspaceError, WorkspaceLimit,
    WorkspaceLimits, WorkspaceStage,
};

fn owner() -> ArenaOwnerId {
    ArenaOwnerId::new(731).unwrap()
}

fn manifest(n: u64) -> SearchManifestId {
    SearchManifestId { owner: owner(), value: n }
}

fn file(n: u64) -> FileId {
    FileId::new(owner(), n).unwrap()
}

fn revision(n: u64) -> SourceRevision {
    SourceRevision::new(owner(), n).unwrap()
}

fn digest(n: u8) -> Sha256Digest {
    Sha256Digest { bytes: [n; 32] }
}

type Entry<'a> = (&'a [u8], u64, Result<&'a [u8], &'a str>);

fn decoded(entries: &[Entry<'_>], i: usize) -> Result<SavedEntry, &'static str> {
    let (path, observed_bytes, data) = entries[i];
    Ok(SavedEntry {
        path: path.to_vec(),
        observed_bytes,
        data: match data {
            Ok(bytes) => SavedData::Captured(bytes.to_vec()),
            Err(reason) => SavedData::Unavailable(reason.to_string()),
        },
    })
}

fn view(entries: &[Entry<'_>], complete: bool) -> SnapshotView {
    SnapshotView {
        len: entries.len(),
        path_bytes: entries.iter().map(|e| e.0.len()).sum(),
        source_bytes: entries.iter().map(|e| e.2.map_or(0, |b| b.len())).sum(),
        discovery_complete: complete,
        policy: "test-v1".to_string(),
        digest: digest(9),
    }
}

fn restore(entries: &[Entry<'_>], complete: bool) -> SavedWorkspace {
    SavedWorkspace::restore(
        view(entries, complete),
        manifest(50),
        file(100),
        revision(200),
        |_| true,
        |i| decoded(entries, i),
        |_, _| Ok(()),
        |path| format!("{path:?}"),
        || false,
    )
    .unwrap()
}

/// Occurrences of little-endian text in a source, in bytes.
fn wide_hits(bytes: &[u8], needle: &str) -> Vec<(u64, u64)> {
    let needle: Vec<u8> = needle.encode_utf16().flat_map(u16::to_le_bytes).collect();
    (0..bytes.len())
        .step_by(2)
        .filter(|i| bytes[*i..].starts_with(&needle))
        .map(|i| (i as u64, (i + needle.len()) as u64))
        .collect()
}

#[test]
fn restored_capture_search_and_reading_use_only_saved_utf16_bytes() {
    let mut raw = vec![0xff, 0xfe];
    for unit in "head\r\nbanana".encode_utf16() {
        raw.extend_from_slice(&unit.to_le_bytes());
    }
    let kept = raw.clone();
    let workspace = restore(&[(b"\xff\\name.rs", raw.len() as u64, Ok(&raw))], true);
    raw.fill(0);
    let member = &workspace.members()[0];
    assert_eq!(member.path(), b"\xff\\name.rs");
    let inputs = workspace.search_inputs(|_| true, || false).unwrap();
    assert_eq!(inputs.documents.len(), 1);
    let closed = inputs.manifest(|_, _, membership, _| Ok::<_, ()>(membership)).unwrap();
    assert_eq!(closed, MembershipState::Closed);
    let indexed = inputs.index(
        7,
        |_, inputs, _, bounds| {
            assert_eq!(bounds.max_path_bytes, 131_072);
            Ok(inputs.documents.len())
        },
        |files, limit| if files < limit { Ok(files) } else { Err("full") },
    );
    assert_eq!(indexed, Ok(1));
    let hits = wide_hits(inputs.documents[0].source.bytes(), "ana");
    assert_eq!(hits.len(), 2);
    assert_eq!(inputs.documents[0].file.get(), 100);
    assert_eq!(inputs.documents[0].source.revision().get(), 200);
    assert_eq!(hits[0].0, 16);
    let generation = QueryGeneration::new(owner(), 9).unwrap();
    let reader = workspace
        .reader(member.file_id(), DetectedEncoding::Utf16Le, ReaderLimits::default(), |_| true)
        .unwrap();
    let mut seek = reader.seek(ReadingTarget::Byte(0), generation).unwrap();
    seek.step(64, generation, || false).unwrap();
    let ReadingSeekState::Ready(at) = seek.state() else { panic!("start must be ready") };
    let window = reader
        .window(
            at,
            generation,
            ReadingWindowOptions::default(),
            |_| true,
            |from, to, encoding| {
                assert_eq!(encoding, DetectedEncoding::Utf16Le);
                let mut text = String::new();
                let mut spans = Vec::new();
                for i in (from..to).step_by(2) {
                    let start = text.len() as u64;
                    let unit = u16::from_le_bytes([kept[i], kept[i + 1]]);
                    text.push(char::from_u32(u32::from(unit)).unwrap());
                    spans.push(MappingSpan {
                        raw_start: i as u64,
                        raw_end: i as u64 + 2,
                        decoded_start: start,
                        decoded_end: text.len() as u64,
                        kind: SpanKind::Exact,
                    });
                }
                Some(WindowMap { text, raw_base: from as u64, spans })
            },
            || false,
        )
        .unwrap();
    assert_eq!(window.line_text(0), Some("head"));
    assert_eq!(window.line_text(1), Some("banana"));
}

#[test]
fn unavailable_and_incomplete_discovery_cannot_be_complete_negative_searches() {
    for complete in [false, true] {
        let entries: [Entry<'_>; 2] =
            [(b"a", 1, Ok(b"x")), (b"b", u64::MAX, Err("SOURCE_UNAVAILABLE"))];
        let workspace = restore(&entries, complete);
        let inputs = workspace.search_inputs(|_| true, || false).unwrap();
        assert_eq!(inputs.unavailable.len(), 1);
        assert_eq!(workspace.members()[1].unavailable_reason(), Some("SOURCE_UNAVAILABLE"));
        assert!(workspace.members()[1].capture().is_none());
        let membership = inputs.manifest(|_, _, membership, _| Ok::<_, ()>(membership)).unwrap();
        assert_eq!(membership == MembershipState::Closed, complete);
    }
}

#[test]
fn fresh_identity_intervals_cannot_overflow_and_foreign_owners_are_refused() {
    let entries: [Entry<'_>; 2] = [(b"a", 0, Ok(b"")), (b"b", 0, Ok(b""))];
    let try_restore = |first_file: FileId| {
        SavedWorkspace::restore(
            view(&entries, true),
            manifest(1),
            first_file,
            revision(1),
            |_| true,
            |i| decoded(&entries, i),
            |_, _| Ok(()),
            |path| format!("{path:?}"),
            || false,
        )
    };
    assert!(matches!(try_restore(file(u64::MAX)), Err(SavedSourceError::IdentityExhausted)));
    let foreign = ArenaOwnerId::new(732).unwrap();
    assert!(matches!(
        try_restore(FileId::new(foreign, 1).unwrap()),
        Err(SavedSourceError::OwnerMismatch)
    ));
}

#[test]
fn canceled_restore_gives_no_workspace() {
    let mut reserved = false;
    let cell = std::cell::Cell::new(false);
    let restored = SavedWorkspace::restore(
        view(&[], true),
        manifest(1),
        file(1),
        revision(1),
        |_| {
            cell.set(true);
            true
        },
        |_| Err("unread"),
        |_, _| Ok(()),
        |path| format!("{path:?}"),
        || cell.get(),
    );
    assert!(matches!(restored, Err(SavedSourceError::Canceled)));
    reserved |= cell.get();
    assert!(reserved);
}

#[test]
fn restoring_refuses_what_the_host_cannot_decode_or_pay_for() {
    let entries: [Entry<'_>; 1] = [(b"a", 1, Ok(b"x"))];
    let attempt = |granted: bool, decodes: bool, accepted: bool| {
        SavedWorkspace::restore(
            view(&entries, true),
            manifest(1),
            file(1),
            revision(1),
            |_| granted,
            |i| if decodes { decoded(&entries, i) } else { Err("cut short") },
            |_, _| if accepted { Ok(()) } else { Err("invalid member") },
            |path| format!("{path:?}"),
            || false,
        )
    };
    assert!(matches!(attempt(false, true, true), Err(SavedSourceError::ResourceDenied)));
    assert_eq!(attempt(true, false, true).err(), Some(SavedSourceError::Format("cut short")));
    assert_eq!(attempt(true, true, false).err(), Some(SavedSourceError::Format("invalid member")));
    let saved = attempt(true, true, true).unwrap();
    assert_eq!(saved.member(file(1)).unwrap().capture().unwrap().bytes(), b"x");
    assert!(saved.member(file(2)).is_none());
    assert_eq!(saved.policy(), "test-v1");
    let missing: SavedSourceError = SavedSourceError::MissingCapture;
    assert_eq!(missing.code(), Some("SNAPSHOT_MISSING_CAPTURE"));
}

fn found(path: &[u8], length: u64) -> DiscoveredEntry {
    DiscoveredEntry {
        kind: DiscoveryKind::File,
        excluded: false,
        path: path.to_vec(),
        observed_len: Some(length),
    }
}

fn clean() -> DiscoveryAggregate {
    DiscoveryAggregate {
        unavailable: 0,
        cycles: 0,
        depth_limited: 0,
        path_limited: 0,
        queue_refused: 0,
    }
}

fn page(entries: Vec<DiscoveredEntry>, done: bool) -> DiscoveryReply {
    DiscoveryReply::Page(DiscoveryPage { entries, aggregate: clean(), done, complete: done })
}

fn catalog(limits: WorkspaceLimits) -> WorkspaceCatalog {
    WorkspaceCatalog::open(owner(), None, 10, manifest(5), file(40), limits, false, |_| true)
        .unwrap()
}

fn step(
    catalog: &mut WorkspaceCatalog,
    reply: DiscoveryReply,
) -> Result<WorkspaceStage, WorkspaceError> {
    catalog.step(
        || false,
        || None,
        || reply,
        |path| format!("{path:?}"),
        || None,
        |_| String::new(),
    )
}

#[test]
fn identities_follow_the_order_of_paths_not_of_the_walk() {
    let mut c = catalog(WorkspaceLimits::default());
    assert_eq!(
        step(&mut c, page(vec![found(b"b", 1), found(b"\xff", 2)], false)),
        Ok(WorkspaceStage::Discovering)
    );
    let hidden = DiscoveredEntry { excluded: true, ..found(b"0", 1) };
    let folder = DiscoveredEntry { kind: DiscoveryKind::Other, ..found(b"1", 1) };
    assert_eq!(
        step(&mut c, page(vec![hidden, folder, found(b"a", 3)], true)),
        Ok(WorkspaceStage::Ready)
    );
    let paths: Vec<&[u8]> = c.entries().iter().map(|e| e.path().as_slice()).collect();
    assert_eq!(paths, [b"a".as_slice(), b"b", b"\xff"]);
    assert_eq!(c.entries()[2].search_key, "[255]");
    assert_eq!(c.file_id(1), Some(file(41)));
    assert_eq!(c.entry(file(42)).unwrap().observed_bytes(), 2);
    assert!(c.entry(file(43)).is_none());
    assert!(c.discovery_complete());
    assert_eq!(c.policy_name(), "product-defaults/no-rule-files-v1");
}

#[test]
fn a_path_that_comes_twice_is_refused() {
    let mut c = catalog(WorkspaceLimits::default());
    assert_eq!(
        step(&mut c, page(vec![found(b"a", 1), found(b"b", 1), found(b"a", 1)], true)),
        Err(WorkspaceError::DuplicatePath)
    );
    assert_eq!(c.stage(), WorkspaceStage::Canceled);
}

#[test]
fn limits_and_failures_leave_the_scope_open() {
    let mut c = catalog(WorkspaceLimits { max_files: 1, ..WorkspaceLimits::default() });
    assert_eq!(
        step(&mut c, page(vec![found(b"a", 1), found(b"b", 1)], true)),
        Ok(WorkspaceStage::Ready)
    );
    assert_eq!(c.stopped_by_limit(), Some(WorkspaceLimit::Files));
    assert!(!c.discovery_complete());
    let limits = WorkspaceLimits { max_total_path_bytes: 3, ..WorkspaceLimits::default() };
    let mut c = catalog(limits);
    step(&mut c, page(vec![found(b"ab", 1), found(b"cd", 1)], true)).unwrap();
    assert_eq!(c.stopped_by_limit(), Some(WorkspaceLimit::Paths));
    let mut c = catalog(WorkspaceLimits { max_discovery_pages: 1, ..WorkspaceLimits::default() });
    step(&mut c, page(vec![], false)).unwrap();
    step(&mut c, page(vec![], false)).unwrap();
    assert_eq!(c.stopped_by_limit(), Some(WorkspaceLimit::DiscoveryPages));
    let mut c = catalog(WorkspaceLimits::default());
    step(&mut c, DiscoveryReply::Failed(SourceError::Unreadable)).unwrap();
    assert_eq!(c.discovery_error(), Some(SourceError::Unreadable));
    assert!(!c.discovery_complete());
    let mut c = catalog(WorkspaceLimits::default());
    assert_eq!(
        step(&mut c, DiscoveryReply::Failed(SourceError::GrantRevoked)),
        Err(WorkspaceError::Source(SourceError::GrantRevoked))
    );
    assert_eq!(c.stage(), WorkspaceStage::Canceled);
    assert_eq!(
        WorkspaceCatalog::open(
            owner(),
            None,
            10,
            manifest(5),
            file(u64::MAX),
            WorkspaceLimits { max_files: 2, ..WorkspaceLimits::default() },
            false,
            |_| true
        )
        .err(),
        Some(WorkspaceError::IdentityExhausted)
    );
}

#[test]
fn rule_files_become_part_of_the_policy_name() {
    let mut c = WorkspaceCatalog::open_rule_aware(
        owner(),
        None,
        10,
        manifest(5),
        file(40),
        WorkspaceLimits::default(),
        "repository-rules".to_string(),
        (1, 2),
        |_| true,
        || None::<WorkspaceError<(), &str>>,
    )
    .unwrap();
    let refused = WorkspaceCatalog::open_rule_aware(
        owner(),
        None,
        10,
        manifest(5),
        file(40),
        WorkspaceLimits::default(),
        "repository-rules".to_string(),
        (1, 2),
        |_| true,
        || Some(WorkspaceError::Rules("too many rules")),
    );
    assert_eq!(refused.err(), Some(WorkspaceError::Rules("too many rules")));
    assert_eq!(c.policy_name(), "repository-rules");
    let mut hashed = Vec::new();
    c.step(
        || false,
        || None,
        || page(vec![found(b"a", 1)], true),
        |path| format!("{path:?}"),
        || {
            Some(RepositoryRules {
                complete: true,
                observations: vec![RuleObservation { path: b".i".to_vec(), bytes: b"*".to_vec() }],
            })
        },
        |bytes| {
            hashed = bytes.clone();
            "beef".to_string()
        },
    )
    .unwrap();
    assert_eq!(c.policy_name(), "repository-rules-v1:beef");
    let mut expected = b"fcb/repository-rules/v1\0\x01".to_vec();
    expected.extend_from_slice(&1u64.to_le_bytes());
    expected.extend_from_slice(&2u64.to_le_bytes());
    expected.extend_from_slice(b".i");
    expected.extend_from_slice(&1u64.to_le_bytes());
    expected.extend_from_slice(b"*");
    assert_eq!(hashed, expected);
}

#[test]
fn captures_keep_to_their_limits_and_are_saved_byte_for_byte() {
    let limits =
        WorkspaceLimits { max_file_bytes: 4, max_source_bytes: 6, ..WorkspaceLimits::default() };
    let mut c = catalog(limits);
    let entries = vec![found(b"a", 3), found(b"b", 9), found(b"c", 4), found(b"d", 1)];
    step(&mut c, page(entries, true)).unwrap();
    let mut captures = WorkspaceCaptures::new(&c, None, revision(70), |_| true).unwrap();
    let mut asked = Vec::new();
    while !captures
        .step(
            || false,
            || None,
            |request: CaptureRequest, path: &Vec<u8>, allowed| {
                asked.push((path.clone(), allowed));
                let bytes = if path == b"d" { b"too long".to_vec() } else { b"xyz".to_vec() };
                Ok(CompleteCapture { request, bytes })
            },
        )
        .unwrap()
    {}
    assert_eq!(asked, [(b"a".to_vec(), 4), (b"d".to_vec(), 3)]);
    assert_eq!(captures.captured_bytes(), 3);
    assert_eq!(captures.failure(1), Some(WorkspaceCaptureFailure::FileLimit));
    assert_eq!(captures.file_failure(file(42)), Some(WorkspaceCaptureFailure::SourceLimit));
    assert_eq!(captures.failure(3), Some(WorkspaceCaptureFailure::InvalidCapture));
    assert_eq!(captures.capture(file(40)).unwrap().bytes(), b"xyz");
    assert_eq!(captures.capture(file(40)).unwrap().request().revision(), revision(70));
    let inputs = captures.search_inputs(None, |_| true).unwrap();
    assert_eq!(inputs.documents.len(), 1);
    assert_eq!(inputs.unavailable, [file(41), file(42), file(43)]);
    assert_eq!(inputs.membership, MembershipState::Closed);
    let limits = inputs.manifest(None, |_, _, limits| Ok::<_, ()>(limits)).unwrap();
    assert_eq!(limits, ManifestLimits { max_files: 4096, max_path_bytes: 16_384 });
    let saved = export_workspace(
        &captures,
        || None,
        |_| true,
        |complete, policy, entries| {
            assert!(complete);
            assert_eq!(policy, "product-defaults/no-rule-files-v1");
            assert!(matches!(entries[0].data, SnapshotData::Captured(b) if b == b"xyz"));
            assert_eq!(entries[1].observed_bytes, 9);
            Ok::<_, &str>(entries.len())
        },
        || false,
    );
    assert_eq!(saved, Ok(4));
    let failed = export_workspace(&captures, || None, |_| true, |_, _, _| Err::<(), _>(7), || false);
    assert_eq!(failed, Err(SavedSourceError::Format(7)));
    let unindexed = inputs.manifest(None, |_, _, _| Err::<(), _>("full"));
    assert_eq!(unindexed, Err(WorkspaceError::Index("full")));
    let index = |grant, limit| {
        inputs.index(
            grant,
            limit,
            |_, _, bounds| Ok(bounds.max_files),
            |files, limit| if files < limit { Ok(files) } else { Err("full") },
        )
    };
    assert_eq!(index(None, 5000), Ok(4096));
    assert_eq!(index(None, 4096), Err(WorkspaceError::Index("full")));
    assert!(matches!(index(Some(SourceError::Canceled), 5000), Err(WorkspaceError::Source(_))));
    assert_eq!(
        WorkspaceCaptureFailure::SourceLimit.code(),
        Some("WORKSPACE_TOTAL_SOURCE_LIMIT")
    );
}

#[test]
fn unfinished_captures_are_not_saved() {
    let mut c = catalog(WorkspaceLimits::default());
    step(&mut c, page(vec![found(b"a", 3)], true)).unwrap();
    let mut captures = WorkspaceCaptures::new(&c, None, revision(70), |_| true).unwrap();
    assert_eq!(
        export_workspace(&captures, || None, |_| true, |_, _, _| Ok::<_, &str>(()), || false),
        Err(SavedSourceError::Workspace(WorkspaceError::Pending))
    );
    assert_eq!(
        captures.step(|| false, || None, |_, _, _| Err(SourceError::Canceled)),
        Err(WorkspaceError::Canceled)
    );
    assert!(matches!(
        captures.search_inputs(None, |_| true),
        Err(WorkspaceError::Canceled)
    ));
    assert_eq!(ByteRange::new(3, 2).is_err(), true);
}
