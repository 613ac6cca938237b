use fcb::capture::SourceCapture;
use fcb::identity::{ArenaOwnerId, ByteRange, FileId, QueryGeneration, SourceRevision};
use fcb::search::reader::{DetectedEncoding, ReaderLimits, ReadingSeekState, SourceReader};
use fcb::search::source::CaptureRequest;
use fcb::search::symbols::{
    encoding_compatible, source_references, source_symbols, CapturedReferences, CapturedSymbols,
    ReferenceCandidate, ReferenceError, ReferenceNavigationError, ReferenceOptions,
    SymbolCandidate, SymbolError, SymbolNavigationError, SymbolOptions,
};

const UTF8: DetectedEncoding = DetectedEncoding::Utf8 { has_bom: false };

fn owner() -> ArenaOwnerId {
    ArenaOwnerId::new(886).unwrap()
}

fn generation() -> QueryGeneration {
    QueryGeneration::new(owner(), 1).unwrap()
}

fn capture(owner: ArenaOwnerId, bytes: Vec<u8>) -> SourceCapture {
    SourceCapture::from_bytes(
        owner,
        FileId::new(owner, 1).unwrap(),
        SourceRevision::new(owner, 1).unwrap(),
        "source.rs".to_string(),
        bytes,
    )
    .unwrap()
}

fn reader(source: &SourceCapture) -> SourceReader<'_> {
    SourceReader::new(source, UTF8, ReaderLimits::default(), |_| true).unwrap()
}

/// What the host's engine retains beside its candidates.
struct Found {
    references: CapturedReferences,
    bytes: Vec<u8>,
    generation: QueryGeneration,
}

impl Found {
    fn validate(&self, bytes: &[u8], generation: QueryGeneration) -> Option<ReferenceError> {
        if generation != self.generation {
            Some(ReferenceError::StaleQuery)
        } else if bytes != self.bytes {
            Some(ReferenceError::StaleSource)
        } else {
            None
        }
    }
}

/// A stand-in for the host's engine: whole words of a source.
fn words(
    source: &SourceCapture,
    name: &str,
    encoding: Option<DetectedEncoding>,
    canceled: bool,
) -> Result<Found, ReferenceError> {
    let options = ReferenceOptions { encoding, ..ReferenceOptions::new(generation(), 64) };
    let references = source_references(source, name, options, |bytes, request, name, options| {
        assert_eq!(request, CaptureRequest::new(source.file(), source.revision()).unwrap());
        if canceled {
            return Err(ReferenceError::Canceled);
        }
        let encoding = options.encoding.unwrap_or(UTF8);
        let width = if encoding.is_utf16() { 2 } else { 1 };
        let text: Vec<u8> = bytes.iter().copied().step_by(width).collect();
        let mut candidates = Vec::new();
        let mut at = 0;
        for word in text.split(|b| !b.is_ascii_alphanumeric()) {
            if word == name.as_bytes() {
                let start = (at * width) as u64;
                let end = ((at + word.len()) * width) as u64;
                candidates.push(ReferenceCandidate {
                    id: candidates.len() as u64 + 1,
                    range: ByteRange::new(start, end).unwrap(),
                });
            }
            at += word.len() + 1;
        }
        Ok(CapturedReferences { name: name.to_string(), encoding, candidates })
    })?;
    Ok(Found { references, bytes: source.bytes().to_vec(), generation: options.generation })
}

#[test]
fn declared_bomless_utf16_is_not_silently_read_as_utf8() {
    let owner = ArenaOwnerId::new(861).unwrap();
    let bytes: Vec<u8> = "fn hello() {}\n".encode_utf16().flat_map(u16::to_le_bytes).collect();
    let source = capture(owner, bytes);
    let generation = QueryGeneration::new(owner, 1).unwrap();
    let mut options = SymbolOptions::new(generation, "rust", 64);
    options.encoding = Some(DetectedEncoding::Utf16Le);
    let symbols = source_symbols(&source, options, |_, _, options| {
        Ok(CapturedSymbols {
            encoding: options.encoding.unwrap(),
            candidates: vec![SymbolCandidate {
                id: 1,
                name: "hello".to_string(),
                name_range: Some(ByteRange::new(6, 16).unwrap()),
                range: ByteRange::new(0, 26).unwrap(),
            }],
        })
    })
    .unwrap();
    assert_eq!(symbols.candidates[0].name, "hello");
    assert_eq!(symbols.encoding, DetectedEncoding::Utf16Le);
    let reader = reader(&source);
    assert!(matches!(
        reader.seek_symbol(&symbols, 1, generation, |_, _, _, _| None),
        Err(SymbolNavigationError::EncodingMismatch)
    ));
}

#[test]
fn retained_references_activate_exact_reader_ranges() {
    let source = capture(owner(), b"foo foobar\nfoo".to_vec());
    let found = words(&source, "foo", None, false).unwrap();
    assert_eq!(found.references.candidates.len(), 2);
    assert_eq!(found.references.candidates[1].range.start(), 11);
    let reader = reader(&source);
    let at = |id: u64, generation: QueryGeneration| {
        reader.seek_reference(&found.references, id, generation, |b, _, _, g| found.validate(b, g))
    };
    assert!(at(2, generation()).is_ok());
    assert!(matches!(
        at(0, generation()),
        Err(ReferenceNavigationError::Reference(ReferenceError::NotFound))
    ));
    assert!(matches!(
        at(1, QueryGeneration::new(owner(), 2).unwrap()),
        Err(ReferenceNavigationError::Reference(ReferenceError::StaleQuery))
    ));
    let mut seek = at(2, generation()).unwrap();
    seek.step(64, generation(), || false).unwrap();
    let ReadingSeekState::Ready(anchor) = seek.state() else { panic!("found in one step") };
    assert_eq!(anchor.selection(), Some(ByteRange::new(11, 14).unwrap()));
    assert_eq!(anchor.line_number(), 2);
}

#[test]
fn changed_bytes_with_reused_source_ids_cannot_receive_old_reference() {
    let old = capture(owner(), b"foo".to_vec());
    let current = capture(owner(), b"bar".to_vec());
    let found = words(&old, "foo", None, false).unwrap();
    let reader = reader(&current);
    assert!(matches!(
        reader.seek_reference(&found.references, 1, generation(), |b, _, _, g| found
            .validate(b, g)),
        Err(ReferenceNavigationError::Reference(ReferenceError::StaleSource))
    ));
}

#[test]
fn declared_bomless_utf16_reference_requires_compatible_reader() {
    let bytes: Vec<u8> = "foo foo".encode_utf16().flat_map(u16::to_le_bytes).collect();
    let source = capture(owner(), bytes);
    let found = words(&source, "foo", Some(DetectedEncoding::Utf16Le), false).unwrap();
    assert_eq!(found.references.candidates.len(), 2);
    let reader = reader(&source);
    assert!(matches!(
        reader.seek_reference(&found.references, 1, generation(), |b, _, _, g| found
            .validate(b, g)),
        Err(ReferenceNavigationError::EncodingMismatch)
    ));
}

#[test]
fn facade_owns_query_name_and_propagates_cancellation() {
    let source = capture(owner(), b"foo".to_vec());
    let found = words(&source, &String::from("foo"), None, false).unwrap();
    assert_eq!(found.references.name, "foo");
    assert!(matches!(words(&source, "foo", None, true), Err(ReferenceError::Canceled)));
}

#[test]
fn declarations_select_their_names_and_marks_do_not_matter() {
    let source = capture(owner(), b"fn hello() {}\nfn x() {}".to_vec());
    let symbols = CapturedSymbols {
        encoding: DetectedEncoding::Utf8 { has_bom: true },
        candidates: vec![
            SymbolCandidate {
                id: 7,
                name: "hello".to_string(),
                name_range: Some(ByteRange::new(3, 8).unwrap()),
                range: ByteRange::new(0, 13).unwrap(),
            },
            SymbolCandidate {
                id: 8,
                name: "x".to_string(),
                name_range: None,
                range: ByteRange::new(14, 23).unwrap(),
            },
        ],
    };
    let reader = reader(&source);
    for (id, range) in [(7, (3, 8)), (8, (14, 23))] {
        let mut seek = reader.seek_symbol(&symbols, id, generation(), |_, _, _, _| None).unwrap();
        seek.step(64, generation(), || false).unwrap();
        let ReadingSeekState::Ready(anchor) = seek.state() else { panic!("found in one step") };
        assert_eq!(anchor.selection(), Some(ByteRange::new(range.0, range.1).unwrap()));
    }
    assert!(matches!(
        reader.seek_symbol(&symbols, 9, generation(), |_, _, _, _| None),
        Err(SymbolNavigationError::Symbol(SymbolError::NotFound))
    ));
    assert!(!encoding_compatible(DetectedEncoding::Utf16Le, DetectedEncoding::Utf16Be));
    assert_eq!(
        SymbolNavigationError::EncodingMismatch.code(),
        Some("SYMBOL_READER_ENCODING_MISMATCH")
    );
    assert_eq!(
        ReferenceNavigationError::EncodingMismatch.code(),
        Some("REFERENCE_READER_ENCODING_MISMATCH")
    );
}
