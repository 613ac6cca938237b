use fcb::capture::SourceCapture;
use fcb::envelope::{put_header, put_le, put_raw, Sha256Digest, FRAME_LEN, HEADER_LEN};
use fcb::identity::{ArenaOwnerId, ByteRange, FileId, SourceRevision};
use fcb::scalar::Scalar;
use fcb::ui::reading_panes::desk::checkpoint::encoding::DeskCheckpoint;
use fcb::ui::reading_panes::desk::checkpoint::{schema, CheckpointError, RestoredDesk, NOWHERE};
use fcb::ui::reading_panes::desk::{
    DeskChange, DeskCommand, DeskError, DeskLimits, DeskPaneId, ReadingDesk,
};

/// A digest for tests: every covered byte changes it.
fn digest(bytes: &Vec<u8>, n: usize) -> Sha256Digest {
    let mut out = [0u8; 32];
    for lane in 0..4u64 {
        let mut h: u64 = 0xcbf2_9ce4_8422_2325 ^ lane;
        for b in &bytes[..n] {
            h = (h ^ u64::from(*b)).wrapping_mul(0x0000_0100_0000_01b3);
        }
        out[lane as usize * 8..lane as usize * 8 + 8].copy_from_slice(&h.to_le_bytes());
    }
    Sha256Digest { bytes: out }
}

fn owner(n: u64) -> ArenaOwnerId {
    ArenaOwnerId::new(n).unwrap()
}

fn range(a: u64, b: u64) -> ByteRange {
    ByteRange::new(a, b).unwrap()
}

fn scalar(value: f32) -> Scalar {
    Scalar { bits: value.to_bits() }
}

fn desk(n: u64, limits: DeskLimits) -> ReadingDesk {
    ReadingDesk::new(owner(n), limits, |_| true).unwrap()
}

fn open(d: &mut ReadingDesk, file: u64, rev: u64, bytes: &[u8]) -> DeskPaneId {
    let source = SourceCapture::from_bytes(
        d.owner(),
        FileId::new(d.owner(), file).unwrap(),
        SourceRevision::new(d.owner(), rev).unwrap(),
        format!("file-{file}.rs"),
        bytes.to_vec(),
    )
    .unwrap();
    let n = d.last_attempt() + 1;
    d.open(d.revision(), n, source, 0, None, 1000 + n, |_| true, || false)
        .unwrap()
        .active
        .unwrap()
}

fn apply(d: &mut ReadingDesk, command: DeskCommand) -> DeskChange {
    d.apply(d.revision(), d.last_attempt() + 1, command, || false).unwrap()
}

fn save(d: &ReadingDesk) -> DeskCheckpoint {
    d.checkpoint(d.revision(), |_| true, digest, || false).unwrap()
}

fn restore(
    d: &mut ReadingDesk,
    expected: u64,
    attempt: u64,
    bytes: &Vec<u8>,
    allocation: u64,
) -> Result<RestoredDesk, CheckpointError> {
    d.restore_checkpoint(expected, attempt, bytes, allocation, |_| true, digest, || false)
}

#[test]
fn full_roundtrip_keeps_pins_independent_views_closed_history_and_notes() {
    let mut original = desk(700, DeskLimits::default());
    let a = open(&mut original, 10, 20, b"one two");
    apply(
        &mut original,
        DeskCommand::Navigate { pane: a, offset: 0, selection: Some(range(0, 3)) },
    );
    apply(&mut original, DeskCommand::Pin { pane: a, pinned: true });
    let duplicate = apply(&mut original, DeskCommand::Duplicate(a)).active.unwrap();
    apply(
        &mut original,
        DeskCommand::Navigate { pane: duplicate, offset: 4, selection: Some(range(4, 7)) },
    );
    apply(
        &mut original,
        DeskCommand::Arrange {
            pane: duplicate,
            position: (scalar(23.5), scalar(42.0)),
            size: (scalar(900.0), scalar(650.5)),
        },
    );
    let b = open(&mut original, 11, 21, b"closed but retained");
    apply(
        &mut original,
        DeskCommand::Navigate { pane: b, offset: 7, selection: Some(range(7, 10)) },
    );
    apply(
        &mut original,
        DeskCommand::Bookmark { pane: b, label: "why\nthis matters\0".into() },
    );
    apply(&mut original, DeskCommand::Close(b));
    apply(&mut original, DeskCommand::Back);
    let checkpoint = save(&original);
    let mut restored = desk(701, DeskLimits::default());
    restore(&mut restored, 0, 1, checkpoint.bytes(), 2).unwrap();
    assert_eq!(restored.retained_source_count(), 2);
    assert_eq!(restored.panes().len(), original.panes().len());
    assert_eq!(restored.history_cursor(), original.history_cursor());
    assert_eq!(restored.bookmarks()[0].label(), "why\nthis matters\0");
    let panes: Vec<DeskPaneId> = restored
        .panes()
        .iter()
        .iter()
        .map(|p| restored.pane_id(p.id).unwrap())
        .collect();
    let first = panes[0];
    let second = panes[1];
    assert_eq!(restored.selected_bytes(first, 1).unwrap(), b"one");
    assert_eq!(restored.selected_bytes(second, 1).unwrap(), b"two");
    assert_eq!(
        restored.source(first, 1).unwrap().bytes().as_ptr(),
        restored.source(second, 1).unwrap().bytes().as_ptr()
    );
    assert_eq!(
        restored.panes().get_pane(second.get()).unwrap().position,
        (scalar(23.5), scalar(42.0))
    );
    assert_eq!(
        restored.panes().get_pane(second.get()).unwrap().size,
        (scalar(900.0), scalar(650.5))
    );
    let bookmark = restored.bookmarks()[0].id();
    apply(&mut restored, DeskCommand::RecallBookmark(bookmark));
    assert_eq!(
        restored.selected_bytes(restored.active().unwrap(), restored.revision()).unwrap(),
        b"but"
    );
    assert!(restored.panes().iter().iter().filter(|p| p.is_pinned).count() >= 2);
}

#[test]
fn same_owner_restore_rebases_all_identities_and_preserves_exported_old_view() {
    let mut d = desk(1, DeskLimits::default());
    let old = open(&mut d, 40, 50, b"retained");
    apply(&mut d, DeskCommand::Bookmark { pane: old, label: "old id".into() });
    let old_mark = d.bookmarks()[0].id();
    let view = d.export_view(old, d.revision(), 8000, |_| true).unwrap();
    let checkpoint = save(&d);
    let revision = d.revision();
    let result = restore(&mut d, revision, 3, checkpoint.bytes(), 2001).unwrap();
    let new = result.change.active.unwrap();
    assert_ne!(new, old);
    assert!(d.source(new, 3).unwrap().file().get() > 50);
    assert!(d.source(new, 3).unwrap().revision().get() > 50);
    assert!(result.next_source_identity > d.source(new, 3).unwrap().revision().get());
    assert_ne!(d.bookmarks()[0].id(), old_mark);
    assert_eq!(d.location(old, 3), Err(DeskError::MissingPane));
    assert_eq!(view.source().bytes(), b"retained");
    assert_eq!(d.source(new, 3).unwrap().bytes(), b"retained");
}

#[test]
fn identity_high_water_survives_complete_source_eviction() {
    let mut d = desk(1, DeskLimits::default());
    let pane = open(&mut d, 9000, 9999, b"retire");
    let checkpoint = save(&d);
    apply(&mut d, DeskCommand::Close(pane));
    apply(&mut d, DeskCommand::ClearHistory);
    assert_eq!(d.retained_source_count(), 0);
    restore(&mut d, 3, 4, checkpoint.bytes(), 2001).unwrap();
    assert!(d.source(d.active().unwrap(), 4).unwrap().file().get() > 9999);
}

#[test]
fn empty_checkpoint_is_complete_state_and_never_implies_a_source() {
    let original = desk(1, DeskLimits::default());
    let checkpoint = save(&original);
    let mut restored = desk(2, DeskLimits::default());
    restore(&mut restored, 0, 1, checkpoint.bytes(), 3).unwrap();
    assert_eq!(restored.active(), None);
    assert!(restored.history().is_empty());
    assert!(restored.bookmarks().is_empty());
    assert_eq!(restored.retained_source_bytes(), 0);
}

#[test]
fn byte_domains_survive_without_encoding_or_newline_conversion() {
    for bytes in
        [b"".as_slice(), b"\xff\xfea\0\r\0\n\0\xff", b"a\0\xff\r\n", "😀\r\n".as_bytes()]
    {
        let mut d = desk(1, DeskLimits::default());
        let pane = open(&mut d, 1, 1, bytes);
        apply(
            &mut d,
            DeskCommand::Navigate {
                pane,
                offset: 0,
                selection: Some(range(0, bytes.len() as u64)),
            },
        );
        let checkpoint = save(&d);
        let mut restored = desk(2, DeskLimits::default());
        restore(&mut restored, 0, 1, checkpoint.bytes(), 2).unwrap();
        assert_eq!(restored.selected_bytes(restored.active().unwrap(), 1).unwrap(), bytes);
    }
}

#[test]
fn same_file_different_revisions_remain_distinct_after_restore_and_back() {
    let mut d = desk(1, DeskLimits::default());
    open(&mut d, 10, 20, b"old");
    open(&mut d, 10, 21, b"new");
    let checkpoint = save(&d);
    let mut r = desk(2, DeskLimits::default());
    restore(&mut r, 0, 1, checkpoint.bytes(), 2).unwrap();
    let at = r.location(r.active().unwrap(), 1).unwrap();
    apply(&mut r, DeskCommand::Back);
    let previous = r.location(r.active().unwrap(), 2).unwrap();
    assert_eq!(previous.file, at.file);
    assert_ne!(previous.revision, at.revision);
    assert_eq!(r.source(r.active().unwrap(), 2).unwrap().bytes(), b"old");
    apply(&mut r, DeskCommand::Forward);
    assert_eq!(r.source(r.active().unwrap(), 3).unwrap().bytes(), b"new");
}

#[test]
fn serialization_is_deterministic_and_malformed_input_cannot_replace_state() {
    let mut d = desk(1, DeskLimits::default());
    let pane = open(&mut d, 1, 1, b"safe");
    let saved = save(&d);
    let second = save(&d);
    assert_eq!(saved.bytes(), second.bytes());
    assert_eq!(saved.digest().bytes, second.digest().bytes);
    let mut bad = saved.bytes().to_vec();
    bad[80] ^= 1;
    assert_eq!(restore(&mut d, 1, 2, &bad, 2002), Err(CheckpointError::Integrity));
    for (i, n) in [0, 1, 24, saved.bytes().len() - 1].into_iter().enumerate() {
        let part = saved.bytes()[..n].to_vec();
        assert!(restore(&mut d, 1, 3 + i as u64, &part, 3000 + i as u64).is_err());
    }
    assert_eq!(d.revision(), 1);
    assert_eq!(d.active(), Some(pane));
    assert_eq!(d.source(pane, 1).unwrap().bytes(), b"safe");
}

fn resign(bytes: &mut Vec<u8>) {
    let end = bytes.len() - 32;
    let hash = digest(bytes, end);
    bytes[end..].copy_from_slice(&hash.bytes);
}

#[test]
fn checksummed_hostile_counts_versions_and_wide_lengths_are_rejected() {
    let mut d = desk(1, DeskLimits::default());
    open(&mut d, 1, 1, b"safe");
    let saved = save(&d);
    for (attempt, offset, value) in
        [(2, HEADER_LEN, u64::MAX), (3, 16, u64::MAX), (4, HEADER_LEN + 48 + 16, u64::MAX)]
    {
        let mut bytes = saved.bytes().to_vec();
        bytes[offset..offset + 8].copy_from_slice(&value.to_le_bytes());
        resign(&mut bytes);
        assert!(restore(&mut d, 1, attempt, &bytes, 3000 + attempt).is_err());
    }
    let mut bytes = saved.bytes().to_vec();
    bytes[10] = 1;
    resign(&mut bytes);
    assert_eq!(
        restore(&mut d, 1, 5, &bytes, 3005),
        Err(CheckpointError::UnsupportedVersion)
    );
    assert_eq!(d.revision(), 1);
}

fn hostile(pinned: u8, size: f32, source_index: u64, offset: u64, tail: bool) -> Vec<u8> {
    let mut body = Vec::new();
    for n in [1, 1, 0, 0, NOWHERE, 1] {
        put_le(&mut body, n, 8);
    }
    put_le(&mut body, 1, 8);
    put_le(&mut body, 1, 8);
    put_le(&mut body, 5, 8);
    put_raw(&mut body, b"label");
    put_le(&mut body, 3, 8);
    put_raw(&mut body, b"abc");
    put_le(&mut body, 1, 8);
    body.push(pinned);
    for f in [0.0f32, 0.0, size, 480.0, 0.0, 0.0] {
        put_le(&mut body, u64::from(f.to_bits()), 4);
    }
    put_le(&mut body, source_index, 8);
    put_le(&mut body, offset, 8);
    body.push(0);
    put_le(&mut body, 1, 8);
    if tail {
        body.push(0);
    }
    let mut document = Vec::new();
    put_header(&mut document, schema(), body.len() as u64);
    put_raw(&mut document, &body);
    let hash = digest(&document, document.len());
    put_raw(&mut document, &hash.bytes);
    assert_eq!(document.len(), body.len() + FRAME_LEN);
    document
}

#[test]
fn schema_validation_is_not_replaced_by_a_valid_checksum() {
    let mut d = desk(1, DeskLimits::default());
    let cases = [
        hostile(2, 640.0, 0, 0, false),
        hostile(0, f32::NAN, 0, 0, false),
        hostile(0, -1.0, 0, 0, false),
        hostile(0, 640.0, 1, 0, false),
        hostile(0, 640.0, 0, 4, false),
        hostile(0, 640.0, 0, 0, true),
    ];
    for (i, bytes) in cases.iter().enumerate() {
        assert!(restore(&mut d, 0, i as u64 + 1, bytes, 100 + i as u64).is_err());
        assert_eq!(d.active(), None);
        assert_eq!(d.revision(), 0);
    }
    restore(&mut d, 0, 7, &hostile(1, 640.0, 0, 0, false), 200).unwrap();
    assert!(d.panes().active_pane().unwrap().is_pinned);
}

#[test]
fn cancellation_at_final_publication_preserves_complete_previous_state() {
    let mut original = desk(1, DeskLimits::default());
    open(&mut original, 1, 1, b"imported");
    let saved = save(&original);
    let mut probe = desk(2, DeskLimits::default());
    let mut count = 0;
    probe
        .restore_checkpoint(0, 1, saved.bytes(), 2, |_| true, digest, || {
            count += 1;
            false
        })
        .unwrap();
    let mut target = desk(3, DeskLimits::default());
    let pane = open(&mut target, 1, 1, b"previous");
    let mut calls = 0;
    assert_eq!(
        target.restore_checkpoint(1, 2, saved.bytes(), 2, |_| true, digest, || {
            calls += 1;
            calls == count
        }),
        Err(CheckpointError::Desk(DeskError::Canceled))
    );
    assert_eq!(target.revision(), 1);
    assert_eq!(target.active(), Some(pane));
    assert_eq!(target.source(pane, 1).unwrap().bytes(), b"previous");
}

#[test]
fn a_canceled_restore_uses_up_its_attempt_and_nothing_shown() {
    let mut source = desk(1, DeskLimits::default());
    open(&mut source, 1, 1, b"one");
    let saved = save(&source);
    let mut target = desk(2, DeskLimits::default());
    let canceled = Err(CheckpointError::Desk(DeskError::Canceled));
    let at_once = target.restore_checkpoint(0, 4, saved.bytes(), 1, |_| true, digest, || true);
    assert_eq!(at_once, canceled);
    assert_eq!(target.source_high_water, 0);
    assert_eq!(
        restore(&mut target, 0, 4, saved.bytes(), 1),
        Err(CheckpointError::Desk(DeskError::StaleAttempt))
    );
    // A stale request is stale, even where it would be canceled.
    let stale = target.restore_checkpoint(9, 5, saved.bytes(), 1, |_| true, digest, || true);
    assert_eq!(stale, Err(CheckpointError::Desk(DeskError::StaleRevision)));
    restore(&mut target, 0, 5, saved.bytes(), 1).unwrap();
    assert_eq!(target.retained_source_count(), source.retained_source_count());
    assert_eq!(target.retained_source_bytes(), source.retained_source_bytes());
    assert_eq!(target.history_cursor(), source.history_cursor());
}

#[test]
fn import_limits_and_budget_refusal_are_atomic() {
    let mut source = desk(1, DeskLimits::default());
    open(&mut source, 1, 1, b"four");
    let saved = save(&source);
    let mut limited = desk(2, DeskLimits { source_bytes: 3, ..DeskLimits::default() });
    assert_eq!(
        restore(&mut limited, 0, 1, saved.bytes(), 2),
        Err(CheckpointError::Limit)
    );
    let mut target = desk(3, DeskLimits::default());
    let pane = open(&mut target, 1, 1, b"previous");
    assert_eq!(
        target.restore_checkpoint(1, 2, saved.bytes(), 1, |_| false, digest, || false),
        Err(CheckpointError::Desk(DeskError::ResourceDenied))
    );
    assert_eq!(target.active(), Some(pane));
    assert_eq!(target.retained_source_count(), 1);
}

#[test]
fn stale_requests_and_identity_exhaustion_do_not_publish_a_checkpoint() {
    let mut source = desk(1, DeskLimits::default());
    open(&mut source, 1, 1, b"x");
    let saved = save(&source);
    let mut target = desk(2, DeskLimits::default());
    assert_eq!(
        restore(&mut target, 1, 1, saved.bytes(), 2),
        Err(CheckpointError::Desk(DeskError::StaleRevision))
    );
    target.source_high_water = u64::MAX;
    assert_eq!(
        restore(&mut target, 0, 1, saved.bytes(), 2),
        Err(CheckpointError::Desk(DeskError::IdentityExhausted))
    );
    assert_eq!(target.revision(), 0);
    assert_eq!(
        restore(&mut target, 0, 1, saved.bytes(), 2),
        Err(CheckpointError::Desk(DeskError::StaleAttempt))
    );
}

#[test]
fn a_checkpoint_has_the_documented_frame() {
    let d = desk(1, DeskLimits::default());
    let saved = save(&d);
    assert_eq!(saved.bytes().len(), FRAME_LEN + 48);
    assert_eq!(&saved.bytes()[..4], b"FCBK");
    assert_eq!(saved.source_bytes(), 0);
    assert_eq!(CheckpointError::Limit.code(), "DESK_CHECKPOINT_LIMIT");
    assert!(CheckpointError::Desk(DeskError::Canceled).is_canceled());
}
