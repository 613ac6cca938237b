use fcb::envelope::Sha256Digest;
use fcb::identity::{ArenaOwnerId, QueryGeneration};
use fcb::search::archive::{PagedMember, PagedMemberData, SnapshotDirectory};
use fcb::search::snapshot_comparison::{
    same_text, SnapshotChangeKind, SnapshotCompareError, SnapshotComparison,
    SnapshotComparisonStats,
};

fn owner() -> ArenaOwnerId {
    ArenaOwnerId::new(9).unwrap()
}

fn generation(n: u64) -> QueryGeneration {
    QueryGeneration::new(owner(), n).unwrap()
}

/// A directory of paths, each with the number of its content; zero is a file
/// that could not be read.
fn directory(archive: u8, complete: bool, files: &[(&str, u8)]) -> SnapshotDirectory {
    SnapshotDirectory {
        owner: owner(),
        digest: Sha256Digest::new([archive; 32]),
        members: files
            .iter()
            .map(|(path, content)| PagedMember {
                path: path.as_bytes().to_vec(),
                observed_bytes: 4,
                data: if *content == 0 {
                    PagedMemberData::Unavailable
                } else {
                    PagedMemberData::Captured {
                        byte_length: 4,
                        digest: Sha256Digest::new([*content; 32]),
                    }
                },
            })
            .collect(),
        discovery_complete: complete,
        policy: String::from("all"),
    }
}

fn kinds(before: &SnapshotDirectory, after: &SnapshotDirectory) -> Vec<(String, SnapshotChangeKind)> {
    let mut comparison = SnapshotComparison::new(before, after, generation(1)).unwrap();
    let mut out = Vec::new();
    while let Some(change) = comparison.next(before, after, generation(1), || false).unwrap() {
        let path = change.path(before, after).unwrap();
        out.push((String::from_utf8(path.clone()).unwrap(), change.kind()));
    }
    assert!(comparison.finished());
    let stats = comparison.stats();
    assert_eq!(stats.compared_paths, out.len());
    out
}

#[test]
fn change_kinds_have_stable_names() {
    assert_eq!(SnapshotChangeKind::OnlyBefore.name(), "only-before");
    assert_eq!(SnapshotChangeKind::Unchanged.name(), "unchanged");
}

#[test]
fn every_path_is_reported_once_and_in_order() {
    let before = directory(1, true, &[("a", 1), ("b", 2), ("d", 4), ("e", 0)]);
    let after = directory(2, true, &[("a", 1), ("b", 3), ("c", 3), ("e", 5)]);
    let named = |path: &str, kind| (path.to_string(), kind);
    assert_eq!(
        kinds(&before, &after),
        vec![
            named("a", SnapshotChangeKind::Unchanged),
            named("b", SnapshotChangeKind::Changed),
            named("c", SnapshotChangeKind::Added),
            named("d", SnapshotChangeKind::Removed),
            named("e", SnapshotChangeKind::Unavailable),
        ]
    );
}

#[test]
fn absence_is_claimed_only_where_membership_is_closed() {
    let before = directory(1, false, &[("a", 1)]);
    let after = directory(2, true, &[("b", 1)]);
    let found: Vec<SnapshotChangeKind> =
        kinds(&before, &after).into_iter().map(|(_, kind)| kind).collect();
    assert!(!found.contains(&SnapshotChangeKind::Added));
    assert!(found.contains(&SnapshotChangeKind::OnlyAfter));
    let mut other = directory(2, true, &[("b", 1)]);
    other.policy = String::from("some");
    let comparison = SnapshotComparison::new(&before, &other, generation(1)).unwrap();
    assert!(!comparison.policies_match());
    assert!(!comparison.membership_comparable());
}

#[test]
fn counts_are_summed_by_certainty() {
    let stats = SnapshotComparisonStats {
        changed: 1,
        added: 2,
        removed: 4,
        only_before: 8,
        only_after: 16,
        unavailable: 32,
        unchanged: 5,
        compared_paths: 68,
    };
    assert_eq!(stats.known_differences(), 7);
    assert_eq!(stats.uncertain_paths(), 56);
}

#[test]
fn stale_and_canceled_comparisons_do_not_move() {
    let before = directory(1, true, &[("a", 1)]);
    let after = directory(2, true, &[("a", 1)]);
    let mut comparison = SnapshotComparison::new(&before, &after, generation(1)).unwrap();
    assert_eq!(
        comparison.next(&before, &after, generation(2), || false).err(),
        Some(SnapshotCompareError::Stale)
    );
    assert_eq!(
        comparison.next(&before, &after, generation(1), || true).err(),
        Some(SnapshotCompareError::Canceled)
    );
    assert_eq!(comparison.stats().compared_paths, 0);
    let change = comparison.next(&before, &after, generation(1), || false).unwrap().unwrap();
    assert_eq!(change.before_ordinal(), Some(0));
    assert_eq!(change.after_ordinal(), Some(0));
    assert_eq!(change.validate(&before, &after, generation(2)), Err(SnapshotCompareError::Stale));
    let mut foreign = directory(2, true, &[("a", 1)]);
    foreign.owner = ArenaOwnerId::new(10).unwrap();
    assert_eq!(
        SnapshotComparison::new(&before, &foreign, generation(1)).err(),
        Some(SnapshotCompareError::OwnerMismatch)
    );
    assert!(same_text("same", "same"));
    assert!(!same_text("same", "sane"));
}
