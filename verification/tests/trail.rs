use fcb::envelope::Sha256Digest;
use fcb::identity::{ArenaOwnerId, ByteRange, QueryGeneration};
use fcb::search::archive::{PagedMember, PagedMemberData, SnapshotDirectory};
use fcb::search::member_scan::VerifiedMember;
use fcb::search::trail::{
    append_selection, pin_selection, resolve_selection, TrailEntry, TrailError, TrailNavigator,
    TrailReadError, TrailView,
};

fn owner() -> ArenaOwnerId {
    ArenaOwnerId::new(4).unwrap()
}

fn number(n: u8) -> Sha256Digest {
    Sha256Digest::new([n; 32])
}

fn directory() -> SnapshotDirectory {
    let member = |path: &str, data| PagedMember {
        path: path.as_bytes().to_vec(),
        observed_bytes: 10,
        data,
    };
    SnapshotDirectory {
        owner: owner(),
        digest: number(1),
        members: vec![
            member("a.rs", PagedMemberData::Captured { byte_length: 10, digest: number(2) }),
            member("b.rs", PagedMemberData::Unavailable),
        ],
        discovery_complete: true,
        policy: String::from("all"),
    }
}

fn load(ordinal: usize) -> VerifiedMember {
    VerifiedMember { ordinal, archive: number(1), source: number(2), bytes: b"0123456789".to_vec() }
}

fn pin(path: &str, start: u64, end: u64) -> Result<TrailEntry, TrailReadError> {
    pin_selection(
        &directory(),
        &path.as_bytes().to_vec(),
        ByteRange { start, end },
        "why".to_string(),
        100,
        |n| Ok(load(n)),
        || false,
    )
}

#[test]
fn a_pinned_selection_resolves_where_nothing_changed() {
    let entry = pin("a.rs", 2, 5).unwrap();
    assert_eq!(entry.source_length, 10);
    assert_eq!(resolve_selection(&entry, &directory()), Ok(0));
    let mut other = directory();
    other.digest = number(9);
    assert_eq!(resolve_selection(&entry, &other), Err(TrailReadError::OtherArchive));
    let mut changed = directory();
    changed.members[0].data = PagedMemberData::Captured { byte_length: 10, digest: number(7) };
    assert_eq!(resolve_selection(&entry, &changed), Err(TrailReadError::ChangedSource));
    assert_eq!(pin("none.rs", 0, 1).err(), Some(TrailReadError::MissingMember));
    assert_eq!(pin("b.rs", 0, 1).err(), Some(TrailReadError::UnavailableMember));
    assert_eq!(pin("a.rs", 2, 11).err(), Some(TrailReadError::InvalidRange));
}

fn view(entries: Vec<TrailEntry>) -> TrailView {
    TrailView { title: "trail".to_string(), digest: number(5), entries }
}

#[test]
fn moving_forth_and_back_returns_and_makes_targets_stale() {
    let trail = view(vec![pin("a.rs", 0, 1).unwrap(), pin("a.rs", 4, 6).unwrap()]);
    let mut navigator =
        TrailNavigator::new(&trail, QueryGeneration::new(owner(), 1).unwrap());
    assert_eq!(navigator.current_ordinal(), Some(0));
    let target = navigator.target().unwrap();
    assert_eq!(target.validate_delivery(&number(5), navigator.generation()), Ok(()));
    assert_eq!(navigator.next(), Ok(true));
    assert_eq!(navigator.current_ordinal(), Some(1));
    assert_eq!(
        target.validate_delivery(&number(5), navigator.generation()),
        Err(TrailReadError::StaleDelivery)
    );
    assert_eq!(navigator.next(), Ok(false));
    assert_eq!(navigator.previous(), Ok(true));
    assert_eq!(navigator.current_ordinal(), Some(0));
    assert_eq!(navigator.previous(), Ok(false));
    assert!(navigator.select(2).is_err());
}

#[test]
fn appending_hands_on_every_earlier_visit() {
    let trail = view(vec![pin("a.rs", 0, 1).unwrap()]);
    let added = pin("a.rs", 4, 6).unwrap();
    let shape = |title: &str, earlier: Option<Sha256Digest>, entries: &Vec<&TrailEntry>| {
        Ok((
            title.to_string(),
            earlier.is_some(),
            entries.iter().map(|e| e.range.start).collect::<Vec<u64>>(),
        ))
    };
    let made =
        append_selection(Some(&trail), "trail", &added, 8, (1, 2), |_| true, shape, || false);
    assert_eq!(made, Ok(("trail".to_string(), true, vec![0, 4])));
    let full =
        append_selection(Some(&trail), "trail", &added, 1, (1, 2), |_| true, shape, || false);
    assert_eq!(full.err(), Some(TrailError::Limit));
    let stopped =
        append_selection(Some(&trail), "trail", &added, 8, (1, 2), |_| true, shape, || true);
    assert_eq!(stopped.err(), Some(TrailError::Canceled));
}
