//! Find in file.
use vstd::prelude::*;
use vstd::utf8::encode_utf8;

use crate::capture::SourceCapture;
use crate::identity::ByteRange;
use crate::text::{lowercase_text, text_to_lowercase};

verus! {

/// A matched occurrence.
#[derive(Clone, Copy, Debug, PartialEq, Eq, Structural)]
pub struct FindMatch {
    pub match_index: usize,
    pub byte_range: ByteRange,
    pub line_number: u64,
    pub column: u32,
    pub length: usize,
}

/// Options governing find-in-file search.
#[derive(Clone, Copy, Debug, PartialEq, Eq, Structural)]
pub struct FindOptions {
    pub case_sensitive: bool,
    pub whole_word: bool,
}

impl Default for FindOptions {
    fn default() -> (r: Self)
        ensures
            r == (FindOptions { case_sensitive: false, whole_word: false }),
    {
        FindOptions { case_sensitive: false, whole_word: false }
    }
}

/// Find status summary.
#[derive(Debug, PartialEq, Eq)]
pub struct FindStatus<T = String> {
    pub query: T,
    pub total_matches: usize,
    pub current_match_one_based: Option<usize>,
}

impl View for FindStatus {
    type V = FindStatus<Seq<char>>;

    open spec fn view(&self) -> FindStatus<Seq<char>> {
        FindStatus {
            query: self.query@,
            total_matches: self.total_matches,
            current_match_one_based: self.current_match_one_based,
        }
    }
}

/// Interactive find-in-file session attached to a reading lens.
#[derive(Debug, PartialEq, Eq)]
pub struct FindInFileSession<T = String, M = Vec<FindMatch>> {
    pub query: T,
    pub options: FindOptions,
    pub matches: M,
    pub active_match_idx: Option<usize>,
}

/// The model of a session.
pub type FindSessionModel = FindInFileSession<Seq<char>, Seq<FindMatch>>;

impl View for FindInFileSession {
    type V = FindInFileSession<Seq<char>, Seq<FindMatch>>;

    open spec fn view(&self) -> FindInFileSession<Seq<char>, Seq<FindMatch>> {
        FindInFileSession {
            query: self.query@,
            options: self.options,
            matches: self.matches@,
            active_match_idx: self.active_match_idx,
        }
    }
}

/// An ASCII letter in lower case; any other byte as it is.
pub open spec fn lowered(b: u8) -> u8 {
    if 65 <= b <= 90 {
        (b + 32) as u8
    } else {
        b
    }
}

/// Letters, digits and the underscore.
pub open spec fn is_word(b: u8) -> bool {
    48 <= b <= 57 || 65 <= b <= 90 || 97 <= b <= 122 || b == 95
}

/// Whether a line ends at `i`: at a line feed, and at a carriage return that
/// something else than a line feed follows.
pub open spec fn ends_line(bytes: Seq<u8>, i: int) -> bool {
    bytes[i] == 10 || bytes[i] == 13 && i + 1 < bytes.len() && bytes[i + 1] != 10
}

/// The line in which position `i` is counted: a line end counts for the line
/// after it.
pub open spec fn line_of(bytes: Seq<u8>, i: int) -> nat
    decreases i + 1,
{
    if i < 0 {
        1
    } else {
        line_of(bytes, i - 1) + if ends_line(bytes, i) {
            1nat
        } else {
            0nat
        }
    }
}

/// Where that line starts.
pub open spec fn line_start_of(bytes: Seq<u8>, i: int) -> int
    decreases i + 1,
{
    if i < 0 {
        0
    } else if ends_line(bytes, i) {
        i + 1
    } else {
        line_start_of(bytes, i - 1)
    }
}

/// Whether the needle stands at `i`.
pub open spec fn stands_at(
    bytes: Seq<u8>,
    needle: Seq<u8>,
    options: FindOptions,
    i: int,
) -> bool {
    &&& i + needle.len() <= bytes.len()
    &&& forall|k: int|
        0 <= k < needle.len() ==> #[trigger] needle[k] == (if options.case_sensitive {
            bytes[i + k]
        } else {
            lowered(bytes[i + k])
        })
    &&& options.whole_word ==> (i > 0 ==> !is_word(bytes[i - 1])) && (i + needle.len()
        < bytes.len() ==> !is_word(bytes[i + needle.len()]))
}

/// The match at `i`, the `n`th of them.
pub open spec fn match_at(bytes: Seq<u8>, length: nat, i: int, n: int) -> FindMatch {
    FindMatch {
        match_index: n as usize,
        byte_range: ByteRange { start: i as u64, end: (i + length) as u64 },
        line_number: line_of(bytes, i) as u64,
        column: (if line_start_of(bytes, i) <= i {
            i - line_start_of(bytes, i)
        } else {
            0
        }) as u32,
        length: length as usize,
    }
}

/// The matches from `i` on, numbered from `n`.
pub open spec fn found_from(
    bytes: Seq<u8>,
    needle: Seq<u8>,
    options: FindOptions,
    i: int,
    n: int,
) -> Seq<FindMatch>
    decreases bytes.len() - i,
{
    if i < 0 || i >= bytes.len() {
        Seq::empty()
    } else if stands_at(bytes, needle, options, i) {
        seq![match_at(bytes, needle.len(), i, n)] + found_from(
            bytes,
            needle,
            options,
            i + 1,
            n + 1,
        )
    } else {
        found_from(bytes, needle, options, i + 1, n)
    }
}

/// What is looked for: the query's bytes, in lower case unless case counts.
pub open spec fn needle_of(query: Seq<char>, options: FindOptions) -> Seq<u8> {
    if options.case_sensitive {
        encode_utf8(query)
    } else {
        encode_utf8(lowercase_text(query))
    }
}

fn lower(b: u8) -> (r: u8)
    ensures
        r == lowered(b),
{
    if 65 <= b && b <= 90 {
        b + 32
    } else {
        b
    }
}

fn is_word_byte(b: u8) -> (r: bool)
    ensures
        r == is_word(b),
{
    48 <= b && b <= 57 || 65 <= b && b <= 90 || 97 <= b && b <= 122 || b == 95
}

fn needle_stands(bytes: &Vec<u8>, needle: &[u8], options: FindOptions, i: usize) -> (r: bool)
    requires
        i < bytes@.len(),
    ensures
        r == stands_at(bytes@, needle@, options, i as int),
{
    if needle.len() > bytes.len() - i {
        return false;
    }
    let mut k: usize = 0;
    while k < needle.len()
        invariant
            k <= needle@.len(),
            i + needle@.len() <= bytes.len(),
            forall|j: int|
                0 <= j < k ==> #[trigger] needle@[j] == (if options.case_sensitive {
                    bytes@[i + j]
                } else {
                    lowered(bytes@[i + j])
                }),
        decreases needle@.len() - k,
    {
        let b: u8 = if options.case_sensitive {
            bytes[i + k]
        } else {
            lower(bytes[i + k])
        };
        if needle[k] != b {
            assert(needle@[k as int] != b);
            return false;
        }
        k = k + 1;
    }
    if options.whole_word {
        if i > 0 && is_word_byte(bytes[i - 1]) {
            return false;
        }
        if i + needle.len() < bytes.len() && is_word_byte(bytes[i + needle.len()]) {
            return false;
        }
    }
    true
}

proof fn lemma_lines(bytes: Seq<u8>, i: int)
    requires
        -1 <= i,
    ensures
        1 <= line_of(bytes, i) <= i + 2,
        0 <= line_start_of(bytes, i) <= i + 1,
    decreases i + 1,
{
    if i >= 0 {
        lemma_lines(bytes, i - 1);
    }
}

/// Every place at which the needle stands, in order.
pub fn find_matches(bytes: &Vec<u8>, needle: &[u8], options: FindOptions) -> (r: Vec<FindMatch>)
    requires
        bytes@.len() < usize::MAX,
    ensures
        r@ == found_from(bytes@, needle@, options, 0, 0),
{
    let mut out: Vec<FindMatch> = Vec::new();
    let mut line: u64 = 1;
    let mut line_start: usize = 0;
    let mut i: usize = 0;
    let ghost all = found_from(bytes@, needle@, options, 0, 0);
    assert(out@ + all =~= all);
    while i < bytes.len()
        invariant
            i <= bytes@.len() < usize::MAX,
            line == line_of(bytes@, i - 1),
            line_start == line_start_of(bytes@, i - 1),
            out@.len() <= i,
            out@ + found_from(bytes@, needle@, options, i as int, out@.len() as int) == all,
        decreases bytes.len() - i,
    {
        proof {
            lemma_lines(bytes@, i - 1);
            lemma_lines(bytes@, i as int);
        }
        if bytes[i] == 10 || bytes[i] == 13 && i + 1 < bytes.len() && bytes[i + 1] != 10 {
            line = line + 1;
            line_start = i + 1;
        }
        let ghost before = out@;
        if needle_stands(bytes, needle, options, i) {
            let distance: usize = if line_start <= i {
                i - line_start
            } else {
                0
            };
            let found = FindMatch {
                match_index: out.len(),
                byte_range: ByteRange { start: i as u64, end: (i + needle.len()) as u64 },
                line_number: line,
                column: #[verifier::truncate] (distance as u32),
                length: needle.len(),
            };
            assert(found == match_at(bytes@, needle@.len(), i as int, out@.len() as int));
            out.push(found);
        }
        i = i + 1;
        assert(out@ + found_from(bytes@, needle@, options, i as int, out@.len() as int) =~= all);
    }
    assert(out@ =~= all);
    out
}

impl FindSessionModel {
    /// A session over bytes, given what was found.
    pub open spec fn with_matches(
        query: Seq<char>,
        options: FindOptions,
        matches: Seq<FindMatch>,
    ) -> FindSessionModel {
        FindInFileSession {
            query,
            options,
            matches,
            active_match_idx: if matches.len() == 0 {
                None
            } else {
                Some(0)
            },
        }
    }

    /// The session that a search of bytes gives.
    pub open spec fn searched(
        bytes: Seq<u8>,
        query: Seq<char>,
        options: FindOptions,
    ) -> FindSessionModel {
        FindSessionModel::with_matches(
            query,
            options,
            if query.len() == 0 {
                Seq::empty()
            } else {
                found_from(bytes, needle_of(query, options), options, 0, 0)
            },
        )
    }

    /// The active match is one of the matches, and there is one if there are
    /// any.
    pub open spec fn wf(self) -> bool {
        match self.active_match_idx {
            Some(i) => i < self.matches.len(),
            None => self.matches.len() == 0,
        }
    }

    /// The session with the next match active, around the end.
    pub open spec fn next(self) -> FindSessionModel {
        if self.matches.len() == 0 {
            self
        } else {
            FindInFileSession {
                active_match_idx: Some(
                    match self.active_match_idx {
                        Some(i) => if i + 1 >= self.matches.len() {
                            0
                        } else {
                            (i + 1) as usize
                        },
                        None => 0,
                    },
                ),
                ..self
            }
        }
    }

    /// The session with the match before active, around the start.
    pub open spec fn prev(self) -> FindSessionModel {
        if self.matches.len() == 0 {
            self
        } else {
            FindInFileSession {
                active_match_idx: Some(
                    match self.active_match_idx {
                        Some(i) if i > 0 => (i - 1) as usize,
                        _ => (self.matches.len() - 1) as usize,
                    },
                ),
                ..self
            }
        }
    }

    /// The active match.
    pub open spec fn current(self) -> Option<FindMatch> {
        match self.active_match_idx {
            Some(i) if i < self.matches.len() => Some(self.matches[i as int]),
            _ => None,
        }
    }
}

impl FindInFileSession {
    /// Execute a bounded find-in-file search on captured source bytes.
    pub fn search(capture: &SourceCapture, query: &str, options: FindOptions) -> (r: Self)
        requires
            capture@.bytes.len() < usize::MAX,
        ensures
            r@ == FindSessionModel::searched(capture@.bytes, query@, options),
            r@.wf(),
    {
        let text = query.to_owned();
        let matches: Vec<FindMatch> = if query.is_empty() {
            Vec::new()
        } else if options.case_sensitive {
            find_matches(&capture.bytes, query.as_bytes(), options)
        } else {
            let lowered = text_to_lowercase(query);
            find_matches(&capture.bytes, lowered.as_str().as_bytes(), options)
        };
        let active_match_idx: Option<usize> = if matches.len() == 0 {
            None
        } else {
            Some(0)
        };
        FindInFileSession { query: text, options, matches, active_match_idx }
    }

    pub fn query(&self) -> (r: &str)
        ensures
            r@ == self@.query,
    {
        self.query.as_str()
    }

    pub fn matches(&self) -> (r: &Vec<FindMatch>)
        ensures
            r@ == self@.matches,
    {
        &self.matches
    }

    pub fn current_match(&self) -> (r: Option<&FindMatch>)
        ensures
            match self@.current() {
                Some(m) => r == Some(&m),
                None => r is None,
            },
    {
        match self.active_match_idx {
            Some(i) => if i < self.matches.len() {
                Some(&self.matches[i])
            } else {
                None
            },
            None => None,
        }
    }

    pub fn next_match(&mut self) -> (r: Option<&FindMatch>)
        requires
            old(self)@.wf(),
        ensures
            final(self)@ == old(self)@.next(),
            final(self)@.wf(),
            match final(self)@.current() {
                Some(found) => r == Some(&found),
                None => r is None,
            },
    {
        if self.matches.len() == 0 {
            return None;
        }
        let next: usize = match self.active_match_idx {
            Some(i) => if i + 1 < self.matches.len() {
                i + 1
            } else {
                0
            },
            None => 0,
        };
        self.active_match_idx = Some(next);
        assert(self@ == old(self)@.next());
        Some(&self.matches[next])
    }

    pub fn prev_match(&mut self) -> (r: Option<&FindMatch>)
        requires
            old(self)@.wf(),
        ensures
            final(self)@ == old(self)@.prev(),
            final(self)@.wf(),
            match final(self)@.current() {
                Some(found) => r == Some(&found),
                None => r is None,
            },
    {
        if self.matches.len() == 0 {
            return None;
        }
        let prev: usize = match self.active_match_idx {
            Some(i) => if i > 0 {
                i - 1
            } else {
                self.matches.len() - 1
            },
            None => self.matches.len() - 1,
        };
        self.active_match_idx = Some(prev);
        assert(self@ == old(self)@.prev());
        Some(&self.matches[prev])
    }

    pub fn status(&self) -> (r: FindStatus)
        requires
            self@.wf(),
        ensures
            r@ == (FindStatus {
                query: self@.query,
                total_matches: self@.matches.len() as usize,
                current_match_one_based: match self@.active_match_idx {
                    Some(i) => Some((i + 1) as usize),
                    None => None,
                },
            }),
    {
        FindStatus {
            query: self.query.clone(),
            total_matches: self.matches.len(),
            current_match_one_based: match self.active_match_idx {
                Some(i) => Some(i + 1),
                None => None,
            },
        }
    }
}

/// Going back undoes going on, from every match.
pub proof fn prev_undoes_next(session: FindSessionModel)
    requires
        session.wf(),
        session.matches.len() <= usize::MAX,
    ensures
        session.next().prev() == session,
        session.prev().next() == session,
{
}

/// Exactly the places at which the needle stands are found, each once, in
/// order, and each match spans the needle's bytes.
pub proof fn every_occurrence_is_found(
    bytes: Seq<u8>,
    needle: Seq<u8>,
    options: FindOptions,
    i: int,
)
    requires
        0 <= i < bytes.len() <= u64::MAX,
    ensures
        stands_at(bytes, needle, options, i) <==> exists|k: int|
            0 <= k < found_from(bytes, needle, options, 0, 0).len() && (
            #[trigger] found_from(bytes, needle, options, 0, 0)[k]).byte_range == (ByteRange {
                start: i as u64,
                end: (i + needle.len()) as u64,
            }),
        forall|k: int, l: int|
            0 <= k < l < found_from(bytes, needle, options, 0, 0).len() ==> (
            #[trigger] found_from(bytes, needle, options, 0, 0)[k]).byte_range.start < (
            #[trigger] found_from(bytes, needle, options, 0, 0)[l]).byte_range.start,
{
    lemma_found(bytes, needle, options, 0, 0);
    let all = found_from(bytes, needle, options, 0, 0);
    if stands_at(bytes, needle, options, i) {
        lemma_occurs(bytes, needle, options, 0, 0, i);
    }
}

/// Every match from `i` on is an occurrence from `i` on, in order.
proof fn lemma_found(bytes: Seq<u8>, needle: Seq<u8>, options: FindOptions, i: int, n: int)
    requires
        0 <= i <= bytes.len() <= u64::MAX,
    ensures
        forall|k: int|
            0 <= k < found_from(bytes, needle, options, i, n).len() ==> ({
                let m = #[trigger] found_from(bytes, needle, options, i, n)[k];
                &&& i <= m.byte_range.start < bytes.len()
                &&& m.byte_range.end == m.byte_range.start + needle.len()
                &&& stands_at(bytes, needle, options, m.byte_range.start as int)
            }),
        forall|k: int, l: int|
            0 <= k < l < found_from(bytes, needle, options, i, n).len() ==> (
            #[trigger] found_from(bytes, needle, options, i, n)[k]).byte_range.start < (
            #[trigger] found_from(bytes, needle, options, i, n)[l]).byte_range.start,
    decreases bytes.len() - i,
{
    if i < bytes.len() {
        if stands_at(bytes, needle, options, i) {
            lemma_found(bytes, needle, options, i + 1, n + 1);
            let rest = found_from(bytes, needle, options, i + 1, n + 1);
            let all = found_from(bytes, needle, options, i, n);
            assert(all[0] == match_at(bytes, needle.len(), i, n));
            assert forall|k: int| 0 <= k < all.len() implies ({
                let m = #[trigger] all[k];
                &&& i <= m.byte_range.start < bytes.len()
                &&& m.byte_range.end == m.byte_range.start + needle.len()
                &&& stands_at(bytes, needle, options, m.byte_range.start as int)
            }) by {
                if k > 0 {
                    assert(all[k] == rest[k - 1]);
                }
            }
            assert forall|k: int, l: int| 0 <= k < l < all.len() implies (
            #[trigger] all[k]).byte_range.start < (#[trigger] all[l]).byte_range.start by {
                assert(all[l] == rest[l - 1]);
                if k > 0 {
                    assert(all[k] == rest[k - 1]);
                }
            }
        } else {
            lemma_found(bytes, needle, options, i + 1, n);
            assert(found_from(bytes, needle, options, i, n) == found_from(
                bytes,
                needle,
                options,
                i + 1,
                n,
            ));
        }
    }
}

proof fn lemma_occurs(
    bytes: Seq<u8>,
    needle: Seq<u8>,
    options: FindOptions,
    i: int,
    n: int,
    at: int,
)
    requires
        0 <= i <= at < bytes.len() <= u64::MAX,
        stands_at(bytes, needle, options, at),
    ensures
        exists|k: int|
            0 <= k < found_from(bytes, needle, options, i, n).len() && (
            #[trigger] found_from(bytes, needle, options, i, n)[k]).byte_range == (ByteRange {
                start: at as u64,
                end: (at + needle.len()) as u64,
            }),
    decreases at - i,
{
    let all = found_from(bytes, needle, options, i, n);
    if i == at {
        assert(all[0] == match_at(bytes, needle.len(), i, n));
    } else if stands_at(bytes, needle, options, i) {
        lemma_occurs(bytes, needle, options, i + 1, n + 1, at);
        let rest = found_from(bytes, needle, options, i + 1, n + 1);
        let k = choose|k: int|
            0 <= k < rest.len() && (#[trigger] rest[k]).byte_range == (ByteRange {
                start: at as u64,
                end: (at + needle.len()) as u64,
            });
        assert(all[k + 1] == rest[k]);
    } else {
        lemma_occurs(bytes, needle, options, i + 1, n, at);
    }
}

} // verus!
