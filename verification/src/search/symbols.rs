//! Going to declarations and textual references in a captured source.
//!
//! The host's engines find the candidates. Neither kind claims what a compiler
//! would resolve. A candidate is used only in the source, generation and
//! encoding that it was found in.
pub mod finding;

use vstd::prelude::*;

use crate::capture::SourceCapture;
use crate::identity::{ByteRange, FileId, QueryGeneration, SourceRevision};
use crate::search::paged_snapshot::PagedCapture;
use crate::search::reader::{
    DetectedEncoding, ReaderError, ReadingSeek, ReadingTarget, SourceReader,
};
use crate::search::source::CaptureRequest;

verus! {

/// Why the host's engine found no declarations.
#[derive(Clone, Copy, Debug, PartialEq, Eq, Structural)]
pub enum SymbolError {
    Canceled,
    NotFound,
    OwnerMismatch,
    StaleQuery,
    StaleSource,
    Failed,
}

/// Why the host's engine found no references.
#[derive(Clone, Copy, Debug, PartialEq, Eq, Structural)]
pub enum ReferenceError {
    Canceled,
    NotFound,
    OwnerMismatch,
    StaleQuery,
    StaleSource,
    Failed,
}

#[derive(Clone, Copy, Debug)]
pub struct SymbolOptions<L> {
    pub generation: QueryGeneration,
    pub language: L,
    pub encoding: Option<DetectedEncoding>,
    pub max_items: usize,
}

impl<L> SymbolOptions<L> {
    /// Options with the engine's limit.
    pub fn new(generation: QueryGeneration, language: L, max_items: usize) -> (r: Self)
        ensures
            r == (SymbolOptions { generation, language, encoding: None, max_items }),
    {
        SymbolOptions { generation, language, encoding: None, max_items }
    }
}

#[derive(Clone, Copy, Debug)]
pub struct ReferenceOptions {
    pub generation: QueryGeneration,
    pub encoding: Option<DetectedEncoding>,
    pub max_items: usize,
}

impl ReferenceOptions {
    /// Options with the engine's limit.
    pub fn new(generation: QueryGeneration, max_items: usize) -> (r: Self)
        ensures
            r == (ReferenceOptions { generation, encoding: None, max_items }),
    {
        ReferenceOptions { generation, encoding: None, max_items }
    }
}

#[derive(Clone, Copy, Debug, PartialEq, Eq, Structural)]
pub enum SymbolNavigationError {
    Symbol(SymbolError),
    Reader(ReaderError),
    EncodingMismatch,
}

impl SymbolNavigationError {
    /// The stable code of an error, where it is one of this library's.
    pub open spec fn code_spec(self) -> Option<Seq<char>> {
        match self {
            SymbolNavigationError::Symbol(_) => None,
            SymbolNavigationError::Reader(e) => Some(e.code_spec()),
            SymbolNavigationError::EncodingMismatch => Some("SYMBOL_READER_ENCODING_MISMATCH"@),
        }
    }

    pub fn code(self) -> (r: Option<&'static str>)
        ensures
            match self.code_spec() {
                Some(code) => r matches Some(text) && text@ == code,
                None => r is None,
            },
    {
        match self {
            SymbolNavigationError::Symbol(_) => None,
            SymbolNavigationError::Reader(e) => Some(e.code()),
            SymbolNavigationError::EncodingMismatch => Some("SYMBOL_READER_ENCODING_MISMATCH"),
        }
    }
}

#[derive(Clone, Copy, Debug, PartialEq, Eq, Structural)]
pub enum ReferenceNavigationError {
    Reference(ReferenceError),
    Reader(ReaderError),
    EncodingMismatch,
}

impl ReferenceNavigationError {
    /// The stable code of an error, where it is one of this library's.
    pub open spec fn code_spec(self) -> Option<Seq<char>> {
        match self {
            ReferenceNavigationError::Reference(_) => None,
            ReferenceNavigationError::Reader(e) => Some(e.code_spec()),
            ReferenceNavigationError::EncodingMismatch => Some(
                "REFERENCE_READER_ENCODING_MISMATCH"@,
            ),
        }
    }

    pub fn code(self) -> (r: Option<&'static str>)
        ensures
            match self.code_spec() {
                Some(code) => r matches Some(text) && text@ == code,
                None => r is None,
            },
    {
        match self {
            ReferenceNavigationError::Reference(_) => None,
            ReferenceNavigationError::Reader(e) => Some(e.code()),
            ReferenceNavigationError::EncodingMismatch => Some(
                "REFERENCE_READER_ENCODING_MISMATCH",
            ),
        }
    }
}

/// A declaration that the engine found.
#[derive(Debug)]
pub struct SymbolCandidate {
    pub id: u64,
    pub name: String,
    pub name_range: Option<ByteRange>,
    pub range: ByteRange,
}

/// The declarations of one source.
#[derive(Debug)]
pub struct CapturedSymbols {
    pub encoding: DetectedEncoding,
    pub candidates: Vec<SymbolCandidate>,
}

/// A textual reference that the engine found.
#[derive(Clone, Copy, Debug)]
pub struct ReferenceCandidate {
    pub id: u64,
    pub range: ByteRange,
}

/// The textual references to one name in one source.
#[derive(Debug)]
pub struct CapturedReferences {
    pub name: String,
    pub encoding: DetectedEncoding,
    pub candidates: Vec<ReferenceCandidate>,
}

/// Whether text of one encoding may be read in the other.
pub open spec fn compatible(left: DetectedEncoding, right: DetectedEncoding) -> bool {
    left == right || (left is Utf8 && right is Utf8)
}

pub fn encoding_compatible(left: DetectedEncoding, right: DetectedEncoding) -> (r: bool)
    ensures
        r == compatible(left, right),
{
    if left == right {
        return true;
    }
    match (left, right) {
        (DetectedEncoding::Utf8 { .. }, DetectedEncoding::Utf8 { .. }) => true,
        _ => false,
    }
}

/// The first declaration from the `i`th on with an id: the range of its name, or
/// all of it where the name has none.
pub open spec fn symbol_range(candidates: Seq<SymbolCandidate>, id: u64, i: int) -> Option<
    ByteRange,
>
    decreases candidates.len() - i,
{
    if i < 0 || i >= candidates.len() {
        None
    } else if candidates[i].id == id {
        Some(
            match candidates[i].name_range {
                Some(range) => range,
                None => candidates[i].range,
            },
        )
    } else {
        symbol_range(candidates, id, i + 1)
    }
}

/// The range of the first reference from the `i`th on with an id.
pub open spec fn reference_range(candidates: Seq<ReferenceCandidate>, id: u64, i: int) -> Option<
    ByteRange,
>
    decreases candidates.len() - i,
{
    if i < 0 || i >= candidates.len() {
        None
    } else if candidates[i].id == id {
        Some(candidates[i].range)
    } else {
        reference_range(candidates, id, i + 1)
    }
}

/// What a declaration selects.
pub fn selected_range(symbols: &CapturedSymbols, id: u64) -> (r: Result<ByteRange, SymbolError>)
    ensures
        r == (match symbol_range(symbols.candidates@, id, 0) {
            Some(range) => Ok::<ByteRange, SymbolError>(range),
            None => Err(SymbolError::NotFound),
        }),
{
    let mut i: usize = 0;
    while i < symbols.candidates.len()
        invariant
            i <= symbols.candidates@.len(),
            symbol_range(symbols.candidates@, id, 0) == symbol_range(
                symbols.candidates@,
                id,
                i as int,
            ),
        decreases symbols.candidates.len() - i,
    {
        let candidate = &symbols.candidates[i];
        if candidate.id == id {
            return Ok(
                match candidate.name_range {
                    Some(range) => range,
                    None => candidate.range,
                },
            );
        }
        i = i + 1;
    }
    Err(SymbolError::NotFound)
}

/// What a reference selects.
pub fn referenced_range(references: &CapturedReferences, id: u64) -> (r: Result<
    ByteRange,
    ReferenceError,
>)
    ensures
        r == (match reference_range(references.candidates@, id, 0) {
            Some(range) => Ok::<ByteRange, ReferenceError>(range),
            None => Err(ReferenceError::NotFound),
        }),
{
    let mut i: usize = 0;
    while i < references.candidates.len()
        invariant
            i <= references.candidates@.len(),
            reference_range(references.candidates@, id, 0) == reference_range(
                references.candidates@,
                id,
                i as int,
            ),
        decreases references.candidates.len() - i,
    {
        if references.candidates[i].id == id {
            return Ok(references.candidates[i].range);
        }
        i = i + 1;
    }
    Err(ReferenceError::NotFound)
}

/// Asks the host's engine for the declarations of a captured source.
pub fn source_symbols<
    L,
    B: FnOnce(&Vec<u8>, CaptureRequest, SymbolOptions<L>) -> Result<CapturedSymbols, SymbolError>,
>(source: &SourceCapture, options: SymbolOptions<L>, build: B) -> (r: Result<
    CapturedSymbols,
    SymbolError,
>)
    requires
        forall|request: CaptureRequest| call_requires(build, (&source.bytes, request, options)),
    ensures
        if source@.file.owner != source@.revision.owner {
            r matches Err(e) && e == SymbolError::OwnerMismatch
        } else {
            call_ensures(
                build,
                (
                    &source.bytes,
                    CaptureRequest {
                        file: source@.file,
                        revision: source@.revision,
                        range: None,
                    },
                    options,
                ),
                r,
            )
        },
{
    match CaptureRequest::new(source.file, source.revision) {
        Ok(request) => build(&source.bytes, request, options),
        Err(_) => Err(SymbolError::OwnerMismatch),
    }
}

/// Asks the host's engine for the references to a name in a captured source.
pub fn source_references<
    B: FnOnce(&Vec<u8>, CaptureRequest, &str, ReferenceOptions) -> Result<
        CapturedReferences,
        ReferenceError,
    >,
>(source: &SourceCapture, name: &str, options: ReferenceOptions, build: B) -> (r: Result<
    CapturedReferences,
    ReferenceError,
>)
    requires
        forall|request: CaptureRequest|
            call_requires(build, (&source.bytes, request, name, options)),
    ensures
        if source@.file.owner != source@.revision.owner {
            r matches Err(e) && e == ReferenceError::OwnerMismatch
        } else {
            call_ensures(
                build,
                (
                    &source.bytes,
                    CaptureRequest {
                        file: source@.file,
                        revision: source@.revision,
                        range: None,
                    },
                    name,
                    options,
                ),
                r,
            )
        },
{
    match CaptureRequest::new(source.file, source.revision) {
        Ok(request) => build(&source.bytes, request, name, options),
        Err(_) => Err(ReferenceError::OwnerMismatch),
    }
}

impl<'a> SourceReader<'a> {
    /// Goes to a declaration. The host says whether its candidates still are
    /// those of this source and generation.
    pub fn seek_symbol<
        V: FnOnce(&Vec<u8>, FileId, SourceRevision, QueryGeneration) -> Option<SymbolError>,
    >(
        &self,
        symbols: &CapturedSymbols,
        id: u64,
        generation: QueryGeneration,
        validate: V,
    ) -> (r: Result<ReadingSeek<'a>, SymbolNavigationError>)
        requires
            self.wf(),
            call_requires(
                validate,
                (&self.source.bytes, self.source@.file, self.source@.revision, generation),
            ),
        ensures
            exists|refused: Option<SymbolError>|
                #[trigger] call_ensures(
                    validate,
                    (&self.source.bytes, self.source@.file, self.source@.revision, generation),
                    refused,
                ) && match symbol_place(*symbols, id, self.index@.encoding, refused) {
                    Err(e) => r matches Err(f) && f == e,
                    Ok(range) => match self.index@.request(
                        self.source@,
                        ReadingTarget::Range(range),
                        generation,
                    ) {
                        Ok(parts) => r matches Ok(seek) && seek.source == self.source && seek.parts
                            == parts && seek.wf(),
                        Err(e) => r matches Err(f) && f == SymbolNavigationError::Reader(e),
                    },
                },
    {
        let refused = validate(
            &self.source.bytes,
            self.source.file,
            self.source.revision,
            generation,
        );
        assert(call_ensures(
            validate,
            (&self.source.bytes, self.source@.file, self.source@.revision, generation),
            refused,
        ));
        if let Some(e) = refused {
            return Err(SymbolNavigationError::Symbol(e));
        }
        if !encoding_compatible(symbols.encoding, self.index.encoding) {
            return Err(SymbolNavigationError::EncodingMismatch);
        }
        let range = match selected_range(symbols, id) {
            Ok(range) => range,
            Err(e) => {
                return Err(SymbolNavigationError::Symbol(e));
            },
        };
        match self.seek(ReadingTarget::Range(range), generation) {
            Ok(seek) => Ok(seek),
            Err(e) => Err(SymbolNavigationError::Reader(e)),
        }
    }

    /// Goes to a reference. The host says whether its candidates still are those
    /// of this source and generation.
    pub fn seek_reference<
        V: FnOnce(&Vec<u8>, FileId, SourceRevision, QueryGeneration) -> Option<ReferenceError>,
    >(
        &self,
        references: &CapturedReferences,
        id: u64,
        generation: QueryGeneration,
        validate: V,
    ) -> (r: Result<ReadingSeek<'a>, ReferenceNavigationError>)
        requires
            self.wf(),
            call_requires(
                validate,
                (&self.source.bytes, self.source@.file, self.source@.revision, generation),
            ),
        ensures
            exists|refused: Option<ReferenceError>|
                #[trigger] call_ensures(
                    validate,
                    (&self.source.bytes, self.source@.file, self.source@.revision, generation),
                    refused,
                ) && match reference_place(*references, id, self.index@.encoding, refused) {
                    Err(e) => r matches Err(f) && f == e,
                    Ok(range) => match self.index@.request(
                        self.source@,
                        ReadingTarget::Range(range),
                        generation,
                    ) {
                        Ok(parts) => r matches Ok(seek) && seek.source == self.source && seek.parts
                            == parts && seek.wf(),
                        Err(e) => r matches Err(f) && f == ReferenceNavigationError::Reader(e),
                    },
                },
    {
        let refused = validate(
            &self.source.bytes,
            self.source.file,
            self.source.revision,
            generation,
        );
        assert(call_ensures(
            validate,
            (&self.source.bytes, self.source@.file, self.source@.revision, generation),
            refused,
        ));
        if let Some(e) = refused {
            return Err(ReferenceNavigationError::Reference(e));
        }
        if !encoding_compatible(references.encoding, self.index.encoding) {
            return Err(ReferenceNavigationError::EncodingMismatch);
        }
        let range = match referenced_range(references, id) {
            Ok(range) => range,
            Err(e) => {
                return Err(ReferenceNavigationError::Reference(e));
            },
        };
        match self.seek(ReadingTarget::Range(range), generation) {
            Ok(seek) => Ok(seek),
            Err(e) => Err(ReferenceNavigationError::Reader(e)),
        }
    }
}

/// Where a declaration leads to, in a source of an encoding.
pub open spec fn symbol_place(
    symbols: CapturedSymbols,
    id: u64,
    encoding: DetectedEncoding,
    refused: Option<SymbolError>,
) -> Result<ByteRange, SymbolNavigationError> {
    match refused {
        Some(e) => Err(SymbolNavigationError::Symbol(e)),
        None => if !compatible(symbols.encoding, encoding) {
            Err(SymbolNavigationError::EncodingMismatch)
        } else {
            match symbol_range(symbols.candidates@, id, 0) {
                Some(range) => Ok(range),
                None => Err(SymbolNavigationError::Symbol(SymbolError::NotFound)),
            }
        },
    }
}

/// Where a reference leads to, in a source of an encoding.
pub open spec fn reference_place(
    references: CapturedReferences,
    id: u64,
    encoding: DetectedEncoding,
    refused: Option<ReferenceError>,
) -> Result<ByteRange, ReferenceNavigationError> {
    match refused {
        Some(e) => Err(ReferenceNavigationError::Reference(e)),
        None => if !compatible(references.encoding, encoding) {
            Err(ReferenceNavigationError::EncodingMismatch)
        } else {
            match reference_range(references.candidates@, id, 0) {
                Some(range) => Ok(range),
                None => Err(ReferenceNavigationError::Reference(ReferenceError::NotFound)),
            }
        },
    }
}

impl PagedCapture {
    /// Asks the host's engine for the declarations of an opened member.
    pub fn symbols<
        L,
        B: FnOnce(&Vec<u8>, CaptureRequest, SymbolOptions<L>) -> Result<
            CapturedSymbols,
            SymbolError,
        >,
    >(&self, options: SymbolOptions<L>, build: B) -> (r: Result<CapturedSymbols, SymbolError>)
        requires
            forall|request: CaptureRequest|
                call_requires(build, (&self.source.bytes, request, options)),
        ensures
            if self.source@.file.owner != self.source@.revision.owner {
                r matches Err(e) && e == SymbolError::OwnerMismatch
            } else {
                call_ensures(
                    build,
                    (
                        &self.source.bytes,
                        CaptureRequest {
                            file: self.source@.file,
                            revision: self.source@.revision,
                            range: None,
                        },
                        options,
                    ),
                    r,
                )
            },
    {
        source_symbols(&self.source, options, build)
    }

    /// Asks the host's engine for the references to a name in an opened member.
    pub fn references<
        B: FnOnce(&Vec<u8>, CaptureRequest, &str, ReferenceOptions) -> Result<
            CapturedReferences,
            ReferenceError,
        >,
    >(&self, name: &str, options: ReferenceOptions, build: B) -> (r: Result<
        CapturedReferences,
        ReferenceError,
    >)
        requires
            forall|request: CaptureRequest|
                call_requires(build, (&self.source.bytes, request, name, options)),
        ensures
            if self.source@.file.owner != self.source@.revision.owner {
                r matches Err(e) && e == ReferenceError::OwnerMismatch
            } else {
                call_ensures(
                    build,
                    (
                        &self.source.bytes,
                        CaptureRequest {
                            file: self.source@.file,
                            revision: self.source@.revision,
                            range: None,
                        },
                        name,
                        options,
                    ),
                    r,
                )
            },
    {
        source_references(&self.source, name, options, build)
    }

    /// Where a declaration leads to. `encoding` is what the member's first bytes
    /// tell.
    pub fn symbol_target<
        V: FnOnce(&Vec<u8>, FileId, SourceRevision, QueryGeneration) -> Option<SymbolError>,
    >(
        &self,
        symbols: &CapturedSymbols,
        id: u64,
        generation: QueryGeneration,
        encoding: DetectedEncoding,
        validate: V,
    ) -> (r: Result<ReadingTarget, SymbolNavigationError>)
        requires
            call_requires(
                validate,
                (&self.source.bytes, self.source@.file, self.source@.revision, generation),
            ),
        ensures
            exists|refused: Option<SymbolError>|
                #[trigger] call_ensures(
                    validate,
                    (&self.source.bytes, self.source@.file, self.source@.revision, generation),
                    refused,
                ) && match symbol_place(*symbols, id, encoding, refused) {
                    Err(e) => r == Err::<ReadingTarget, SymbolNavigationError>(e),
                    Ok(range) => r == Ok::<ReadingTarget, SymbolNavigationError>(
                        ReadingTarget::Range(range),
                    ),
                },
    {
        let refused = validate(
            &self.source.bytes,
            self.source.file,
            self.source.revision,
            generation,
        );
        assert(call_ensures(
            validate,
            (&self.source.bytes, self.source@.file, self.source@.revision, generation),
            refused,
        ));
        if let Some(e) = refused {
            return Err(SymbolNavigationError::Symbol(e));
        }
        if !encoding_compatible(symbols.encoding, encoding) {
            return Err(SymbolNavigationError::EncodingMismatch);
        }
        match selected_range(symbols, id) {
            Ok(range) => Ok(ReadingTarget::Range(range)),
            Err(e) => Err(SymbolNavigationError::Symbol(e)),
        }
    }

    /// Where a reference leads to. `encoding` is what the member's first bytes
    /// tell.
    pub fn reference_target<
        V: FnOnce(&Vec<u8>, FileId, SourceRevision, QueryGeneration) -> Option<ReferenceError>,
    >(
        &self,
        references: &CapturedReferences,
        id: u64,
        generation: QueryGeneration,
        encoding: DetectedEncoding,
        validate: V,
    ) -> (r: Result<ReadingTarget, ReferenceNavigationError>)
        requires
            call_requires(
                validate,
                (&self.source.bytes, self.source@.file, self.source@.revision, generation),
            ),
        ensures
            exists|refused: Option<ReferenceError>|
                #[trigger] call_ensures(
                    validate,
                    (&self.source.bytes, self.source@.file, self.source@.revision, generation),
                    refused,
                ) && match reference_place(*references, id, encoding, refused) {
                    Err(e) => r == Err::<ReadingTarget, ReferenceNavigationError>(e),
                    Ok(range) => r == Ok::<ReadingTarget, ReferenceNavigationError>(
                        ReadingTarget::Range(range),
                    ),
                },
    {
        let refused = validate(
            &self.source.bytes,
            self.source.file,
            self.source.revision,
            generation,
        );
        assert(call_ensures(
            validate,
            (&self.source.bytes, self.source@.file, self.source@.revision, generation),
            refused,
        ));
        if let Some(e) = refused {
            return Err(ReferenceNavigationError::Reference(e));
        }
        if !encoding_compatible(references.encoding, encoding) {
            return Err(ReferenceNavigationError::EncodingMismatch);
        }
        match referenced_range(references, id) {
            Ok(range) => Ok(ReadingTarget::Range(range)),
            Err(e) => Err(ReferenceNavigationError::Reference(e)),
        }
    }
}

/// Text in units of two bytes is never taken as text in single bytes, nor the
/// other way round.
pub proof fn widths_are_never_mixed(left: DetectedEncoding, right: DetectedEncoding)
    ensures
        compatible(left, right) ==> left.wide() == right.wide(),
        compatible(left, right) == compatible(right, left),
{
}

} // verus!
