use fcb::envelope::Sha256Digest;
use fcb::identity::ArenaOwnerId;
use fcb::search::archive::{
    PagedMember, PagedMemberData, PagedSnapshotError, SnapshotDirectory,
};
use fcb::search::member_scan::VerifiedMember;
use fcb::search::snapshot_index::postings::paged::{
    PagedPostingError, PagedPostings, ReadReply,
};
use fcb::search::snapshot_index::postings::{PostingStep, SnapshotPostings};
use fcb::search::snapshot_index::refresh::{IndexLimits, SegmentImage};
use fcb::search::snapshot_index::{gram_at, Coverage, IndexDecision, SnapshotIndex, SnapshotIndexError};

/// A stand-in for a cryptographic digest.
fn digest(bytes: &[u8]) -> Sha256Digest {
    let mut out = [0u8; 32];
    let mut state: u64 = 0xcbf2_9ce4_8422_2325;
    for lane in 0..4u64 {
        state ^= lane.wrapping_mul(0x9e37_79b9_7f4a_7c15);
        for byte in bytes {
            state ^= u64::from(*byte);
            state = state.wrapping_mul(0x0000_0100_0000_01b3);
        }
        let at = lane as usize * 8;
        out[at..at + 8].copy_from_slice(&state.to_le_bytes());
    }
    Sha256Digest::new(out)
}

fn hash(bytes: &Vec<u8>, n: usize) -> Sha256Digest {
    digest(&bytes[..n])
}

const SOURCES: [Option<&[u8]>; 5] =
    [Some(b"alpha beta"), None, Some(b"gamma alpha"), Some(b"\xffalpha"), Some(b"ab")];

fn directory() -> SnapshotDirectory {
    let members = SOURCES
        .iter()
        .enumerate()
        .map(|(k, source)| PagedMember {
            path: format!("file{k}.rs").into_bytes(),
            observed_bytes: source.map_or(7, |bytes| bytes.len() as u64),
            data: match source {
                Some(bytes) => PagedMemberData::Captured {
                    byte_length: bytes.len(),
                    digest: digest(bytes),
                },
                None => PagedMemberData::Unavailable,
            },
        })
        .collect();
    SnapshotDirectory {
        owner: ArenaOwnerId::new(11).unwrap(),
        digest: digest(b"archive"),
        members,
        discovery_complete: true,
        policy: String::from("all"),
    }
}

fn limits() -> IndexLimits {
    IndexLimits {
        max_total_grams: 1000,
        max_grams_per_file: 1000,
        max_source_bytes_per_file: 4096,
        max_source_bytes_total: 65_536,
        max_scratch_bytes: 4096,
    }
}

fn member(ordinal: usize) -> VerifiedMember {
    let bytes = SOURCES[ordinal].unwrap();
    VerifiedMember {
        ordinal,
        archive: digest(b"archive"),
        source: digest(bytes),
        bytes: bytes.to_vec(),
    }
}

fn image(loaded: &VerifiedMember, bounds: IndexLimits) -> Result<SegmentImage, SnapshotIndexError> {
    let bytes = loaded.bytes.as_slice();
    assert_eq!(bounds.max_source_bytes_total, bytes.len() as u64);
    assert_eq!(bounds.max_grams_per_file, limits().max_grams_per_file);
    let mut grams: Vec<u32> =
        (0..bytes.len().saturating_sub(2)).map(|i| gram_at(bytes, i)).collect();
    grams.sort_unstable();
    grams.dedup();
    Ok(SegmentImage {
        indexed: true,
        utf8: std::str::from_utf8(bytes).is_ok(),
        grams,
        examined: bytes.len() as u64,
    })
}

fn index() -> SnapshotIndex {
    SnapshotIndex::build(
        &directory(),
        limits(),
        [1, 2, 3, 4],
        |_| true,
        |n| Ok(member(n)),
        |_| true,
        |loaded, bounds| image(loaded, bounds),
        || false,
    )
    .unwrap()
}

fn postings() -> SnapshotPostings {
    index().invert(|_| true, || false).unwrap()
}

/// Steps to the end.
fn named(postings: &SnapshotPostings, needle: &[u8], text: bool) -> Vec<(usize, IndexDecision)> {
    let mut candidates = postings.candidates(needle, text);
    let mut out = Vec::new();
    loop {
        match candidates.step() {
            PostingStep::Candidate { ordinal, decision } => out.push((ordinal, decision)),
            PostingStep::Pending => {}
            PostingStep::Finished => break,
        }
    }
    assert!(candidates.is_finished());
    assert_eq!(candidates.excluded_files(), Some(4 - out.len()));
    out
}

#[test]
fn segments_exclude_only_absent_literals() {
    let index = index();
    let stats = index.stats();
    assert_eq!(stats.members, 5);
    assert_eq!(stats.indexed_files, 4);
    assert_eq!(stats.unavailable_files, 1);
    assert_eq!(index.rows[3].coverage, Coverage::Bytes);
    assert_eq!(index.raw_decision(0, b"alpha"), IndexDecision::Verify);
    assert_eq!(index.raw_decision(0, b"gamma"), IndexDecision::Excluded);
    assert_eq!(index.raw_decision(0, b"al"), IndexDecision::Fallback);
    assert_eq!(index.raw_decision(1, b"gamma"), IndexDecision::Fallback);
    assert_eq!(index.raw_decision(9, b"gamma"), IndexDecision::Fallback);
    assert_eq!(index.text_decision(3, Some("gamma")), IndexDecision::Fallback);
    assert_eq!(index.text_decision(2, Some("gamma")), IndexDecision::Verify);
    assert_eq!(index.text_decision(2, None), IndexDecision::Fallback);
    assert_eq!(gram_at(b"abc", 0), 0x61_6263);
}

#[test]
fn stored_index_opens_again() {
    let index = index();
    let directory = directory();
    let artifact = index.encode(|_| true, hash, || false).unwrap();
    assert_eq!(
        artifact.bytes().len(),
        56 + 52 + index.rows.len() * 49 + index.grams.len() * 4
    );
    let back = SnapshotIndex::decode_rows(
        artifact.bytes(),
        &artifact.digest(),
        &directory,
        |_| true,
        hash,
        || false,
    )
    .unwrap();
    assert_eq!(back.grams, index.grams);
    assert_eq!(back.owner(), index.owner());
    for k in 0..index.rows.len() {
        assert_eq!(back.rows[k].coverage, index.rows[k].coverage);
        assert_eq!(back.rows[k].start, index.rows[k].start);
        assert_eq!(back.rows[k].count, index.rows[k].count);
    }
}

#[test]
fn stored_index_is_refused_where_it_does_not_fit() {
    let index = index();
    let directory = directory();
    let artifact = index.encode(|_| true, hash, || false).unwrap();
    let open = |bytes: &Vec<u8>, pin: &Sha256Digest, granted: bool| {
        SnapshotIndex::decode_rows(bytes, pin, &directory, |_| granted, hash, || false).err()
    };
    let pin = artifact.digest();
    assert_eq!(open(artifact.bytes(), &digest(b"other"), true), Some(SnapshotIndexError::PinMismatch));
    assert_eq!(open(artifact.bytes(), &pin, false), Some(SnapshotIndexError::ResourceDenied));
    assert_eq!(open(&vec![0; 10], &pin, true), Some(SnapshotIndexError::Limits));
    let mut minor = artifact.bytes().clone();
    minor[10] = 1;
    assert_eq!(open(&minor, &digest(&minor), true), Some(SnapshotIndexError::Version));
    let mut changed = artifact.bytes().clone();
    changed[120] ^= 1;
    assert_eq!(open(&changed, &digest(&changed), true), Some(SnapshotIndexError::Format));
    let mut other = directory;
    other.digest = digest(b"another archive");
    let refused = SnapshotIndex::decode_rows(
        artifact.bytes(),
        &pin,
        &other,
        |_| true,
        hash,
        || false,
    );
    assert_eq!(refused.err(), Some(SnapshotIndexError::SourceMismatch));
    assert_eq!(
        index.encode(|_| true, hash, || true).err(),
        Some(SnapshotIndexError::Canceled)
    );
    assert_eq!(
        index.encode(|_| false, hash, || false).err(),
        Some(SnapshotIndexError::ResourceDenied)
    );
}

#[test]
fn postings_are_sorted_and_name_every_listed_trigram() {
    let index = index();
    let postings = postings();
    assert_eq!(postings.posting_count(), index.grams.len());
    assert!(postings.pairs.windows(2).all(|two| two[0] < two[1]));
    // The members' segments alone are not in this order.
    let mut listed = Vec::new();
    for (k, row) in index.rows.iter().enumerate() {
        for gram in &index.grams[row.start..row.start + row.count] {
            listed.push(u64::from(*gram) << 32 | k as u64);
        }
    }
    assert_ne!(listed, postings.pairs);
    listed.sort_unstable();
    assert_eq!(listed, postings.pairs);
    assert_eq!(postings.captured, vec![0, 2, 3, 4]);
    assert_eq!(postings.text_fallback, vec![3]);
}

#[test]
fn candidates_are_the_members_the_index_does_not_exclude() {
    let index = index();
    let postings = postings();
    for needle in [&b"alpha"[..], b"gamma", b"nothing", b"al", b"", b"beta", b"ab"] {
        for text in [false, true] {
            let mut expected = Vec::new();
            for k in 0..5 {
                if SOURCES[k].is_none() {
                    continue;
                }
                let decision = if text {
                    index.text_decision(k, Some(std::str::from_utf8(needle).unwrap()))
                } else {
                    index.raw_decision(k, needle)
                };
                if decision != IndexDecision::Excluded {
                    expected.push((k, decision));
                }
            }
            assert_eq!(named(&postings, needle, text), expected);
        }
    }
}

#[test]
fn stored_postings_open_again() {
    let postings = postings();
    let directory = directory();
    let artifact = postings.encode(|_| true, hash, || false).unwrap();
    assert!(SnapshotPostings::is_encoded(artifact.bytes()));
    let back = SnapshotPostings::decode_pinned(
        artifact.bytes(),
        &artifact.digest(),
        &directory,
        |_| true,
        hash,
        || false,
    )
    .unwrap();
    assert_eq!(back.pairs, postings.pairs);
    assert_eq!(back.captured, postings.captured);
    let segments = SnapshotPostings::decode_segments(
        artifact.bytes(),
        &artifact.digest(),
        &directory,
        |_| true,
        hash,
        || false,
    )
    .unwrap();
    assert_eq!(segments.grams, index().grams);
}

fn reply(file: &[u8], at: u64, n: usize) -> ReadReply {
    let start = (at as usize).min(file.len());
    let end = (start + n).min(file.len());
    ReadReply::Bytes(file[start..end].to_vec())
}

#[test]
fn stored_pages_answer_like_the_postings_in_memory() {
    let postings = postings();
    let directory = directory();
    let artifact = postings.encode_paged(|_| true, hash, || false).unwrap();
    let file = artifact.bytes().clone();
    let size = file.len() as u64;
    let mut read = |at: u64, n: usize| reply(&file, at, n);
    let mut never = || false;
    let mut pages = PagedPostings::open_pinned(
        artifact.digest(),
        &directory,
        2,
        &mut read,
        || Some(size),
        |_| true,
        &hash,
        &mut never,
    )
    .unwrap();
    assert_eq!(pages.file_bytes(), size);
    assert_eq!(pages.resident_pages(), 0);
    for needle in [&b"alpha"[..], b"gamma", b"nothing", b"al"] {
        let mut candidates = pages.candidates(needle, false);
        let mut out = Vec::new();
        loop {
            match candidates.step(&mut pages, &mut read, &hash, &mut never).unwrap() {
                PostingStep::Candidate { ordinal, decision } => out.push((ordinal, decision)),
                PostingStep::Pending => {}
                PostingStep::Finished => break,
            }
        }
        assert_eq!(out, named(&postings, needle, false));
        assert_eq!(candidates.excluded_files(&pages), Some(4 - out.len()));
    }
    assert_eq!(pages.resident_pages(), 1);
    assert!(pages.io_stats().page_loads >= 1);
}

#[test]
fn paged_members_come_in_order_and_a_stop_stays() {
    let postings = postings();
    let directory = directory();
    let artifact = postings.encode_paged(|_| true, hash, || false).unwrap();
    let file = artifact.bytes().clone();
    let size = file.len() as u64;
    let mut read = |at: u64, n: usize| reply(&file, at, n);
    let mut pages = PagedPostings::open_pinned(
        artifact.digest(),
        &directory,
        1,
        &mut read,
        || Some(size),
        |_| true,
        &hash,
        &mut || false,
    )
    .unwrap();
    let mut candidates = pages.raw_candidates(b"a");
    let mut last = None;
    loop {
        assert!(!candidates.is_finished(&pages) || last.is_some());
        match candidates.step(&mut pages, &mut read, &hash, &mut || false).unwrap() {
            PostingStep::Candidate { ordinal, .. } => {
                assert!(last < Some(ordinal));
                last = Some(ordinal);
            }
            PostingStep::Pending => assert_eq!(candidates.excluded_files(&pages), None),
            PostingStep::Finished => break,
        }
    }
    assert!(candidates.is_finished(&pages));
    let excluded = candidates.excluded_files(&pages).unwrap();
    let stats = candidates.stats();
    assert_eq!(excluded + stats.candidates_emitted + stats.fallback_emitted, 4);
    assert_eq!(
        candidates.step(&mut pages, &mut read, &hash, &mut || false),
        Ok(PostingStep::Finished)
    );
    // A canceled step ends the cursor, even behind its end.
    let stopped = candidates.step(&mut pages, &mut read, &hash, &mut || true);
    assert_eq!(stopped, Err(PagedPostingError::Index(SnapshotIndexError::Canceled)));
    assert!(!candidates.is_finished(&pages));
    assert_eq!(candidates.excluded_files(&pages), None);
    assert_eq!(candidates.step(&mut pages, &mut read, &hash, &mut || false), stopped);
}

#[test]
fn a_changed_page_is_refused() {
    let postings = postings();
    let directory = directory();
    let artifact = postings.encode_paged(|_| true, hash, || false).unwrap();
    let mut file = artifact.bytes().clone();
    let last = file.len() - 1;
    file[last] ^= 1;
    let size = file.len() as u64;
    let mut read = |at: u64, n: usize| reply(&file, at, n);
    let mut never = || false;
    let mut pages = PagedPostings::open_pinned(
        artifact.digest(),
        &directory,
        1,
        &mut read,
        || Some(size),
        |_| true,
        &hash,
        &mut never,
    )
    .unwrap();
    let mut candidates = pages.raw_candidates(b"alpha");
    let mut failure = None;
    for _ in 0..100 {
        match candidates.step(&mut pages, &mut read, &hash, &mut never) {
            Ok(PostingStep::Finished) => break,
            Ok(_) => {}
            Err(error) => {
                failure = Some(error);
                break;
            }
        }
    }
    assert_eq!(failure, Some(PagedPostingError::ChangedPage));
    // The failure stays.
    assert_eq!(
        candidates.step(&mut pages, &mut read, &hash, &mut never).err(),
        Some(PagedPostingError::ChangedPage)
    );
}

#[test]
fn a_refresh_copies_the_segments_of_unchanged_members() {
    let index = index();
    let mut directory = directory();
    directory.digest = digest(b"later archive");
    directory.members[0].observed_bytes = 5;
    directory.members[0].data =
        PagedMemberData::Captured { byte_length: 5, digest: digest(b"later") };
    let mut asked = Vec::new();
    let refreshed = index
        .refresh(
            &directory,
            limits(),
            [1, 2, 3, 4, 5],
            |_| true,
            |_| true,
            |n| {
                Ok(VerifiedMember {
                    ordinal: n,
                    archive: digest(b"later archive"),
                    source: digest(b"later"),
                    bytes: b"later".to_vec(),
                })
            },
            |_| true,
            |loaded, _| {
                asked.push(loaded.ordinal);
                let mut grams: Vec<u32> = (0..3).map(|i| gram_at(b"later", i)).collect();
                grams.sort_unstable();
                Ok(SegmentImage { indexed: true, utf8: true, grams, examined: 5 })
            },
            || false,
        )
        .unwrap();
    assert_eq!(asked, vec![0]);
    assert_eq!(refreshed.stats().reused_files, 3);
    assert_eq!(refreshed.stats().rebuilt_files, 1);
    let next = refreshed.into_index();
    assert_eq!(next.raw_decision(0, b"later"), IndexDecision::Verify);
    assert_eq!(next.raw_decision(0, b"alpha"), IndexDecision::Excluded);
    assert_eq!(next.raw_decision(2, b"gamma"), IndexDecision::Verify);
}

#[test]
fn each_segment_is_made_within_the_room_that_is_left() {
    let mut rooms = Vec::new();
    let mut charges = Vec::new();
    let index = SnapshotIndex::build(
        &directory(),
        limits(),
        [1, 2, 3, 4],
        |_| true,
        |n| Ok(member(n)),
        |charge| {
            charges.push(charge);
            true
        },
        |loaded, bounds| {
            rooms.push((loaded.ordinal, bounds.max_total_grams));
            image(loaded, bounds)
        },
        || false,
    )
    .unwrap();
    let counts: Vec<usize> = index.rows.iter().map(|row| row.count).collect();
    assert_eq!(counts, vec![8, 0, 9, 4, 0]);
    // Three to four members share the trigrams that were asked for.
    let first = rooms[0].1;
    assert_eq!(rooms, vec![(0, first), (2, first - 8), (3, first - 17), (4, first - 21)]);
    let lengths: Vec<u64> = charges.iter().map(|charge| charge - charges[3] + 2).collect();
    assert_eq!(lengths, vec![10, 11, 6, 2]);
}

#[test]
fn a_copy_that_is_refused_and_a_member_that_does_not_load_end_the_construction() {
    let refused = SnapshotIndex::build(
        &directory(),
        limits(),
        [1, 2, 3, 4],
        |_| true,
        |n| Ok(member(n)),
        |charge| charge % 2 == 1,
        |loaded, bounds| image(loaded, bounds),
        || false,
    );
    assert_eq!(refused.err(), Some(SnapshotIndexError::ResourceDenied));
    let missing = SnapshotIndex::build(
        &directory(),
        limits(),
        [1, 2, 3, 4],
        |_| true,
        |_| Err(PagedSnapshotError::Failed),
        |_| true,
        |loaded, bounds| image(loaded, bounds),
        || false,
    );
    assert_eq!(
        missing.err(),
        Some(SnapshotIndexError::Archive(PagedSnapshotError::Failed))
    );
}

#[test]
fn pages_asked_for_are_counted_one_to_a_step() {
    let directory = directory();
    let artifact = postings().encode_paged(|_| true, hash, || false).unwrap();
    let file = artifact.bytes().clone();
    let size = file.len() as u64;
    let mut read = |at: u64, n: usize| reply(&file, at, n);
    let mut never = || false;
    let mut pages = PagedPostings::open_pinned(
        artifact.digest(),
        &directory,
        1,
        &mut read,
        || Some(size),
        |_| true,
        &hash,
        &mut never,
    )
    .unwrap();
    let opened = pages.io_stats();
    assert_eq!((opened.page_loads, opened.cache_hits), (0, 0));
    // Nothing may be loaded yet.
    let mut loads = 0;
    assert_eq!(pages.pair(0, &mut loads, &mut read, &hash, &mut never), Ok(None));
    assert_eq!(pages.io_stats().read_calls, opened.read_calls);
    let mut candidates = pages.raw_candidates(b"alpha");
    loop {
        let before = pages.io_stats().page_loads;
        let step = candidates.step(&mut pages, &mut read, &hash, &mut never).unwrap();
        assert!(pages.io_stats().page_loads - before <= 1);
        if step == PostingStep::Finished {
            break;
        }
    }
    let io = pages.io_stats();
    assert_eq!(io.page_loads, 1);
    assert_eq!(io.evictions, 0);
    assert_eq!(io.page_bytes_read, 8 * pages.total as u64);
    // The one page is in memory from now on.
    let mut loads = 1;
    assert!(matches!(pages.pair(0, &mut loads, &mut read, &hash, &mut never), Ok(Some(_))));
    assert_eq!(loads, 1);
    assert_eq!(pages.io_stats().cache_hits, io.cache_hits + 1);
    assert_eq!(
        pages.pair(pages.total, &mut loads, &mut read, &hash, &mut never),
        Err(PagedPostingError::Index(SnapshotIndexError::Format))
    );
    assert_eq!(pages.io_stats().cache_hits, io.cache_hits + 1);
}
