//! What a search of a file finds, told by the bytes alone.
use vstd::prelude::*;
use vstd::utf8::encode_utf8;

use super::find::{
    ends_line, every_occurrence_is_found, found_from, is_word, line_of, line_start_of, lowered,
    match_at, needle_of, stands_at, FindMatch, FindOptions, FindSessionModel,
};
use crate::identity::ByteRange;
use crate::text::lowercase_text;

verus! {

/// A byte that is looked for is the byte that is there, or, where case does not
/// count, the small letter of the capital that is there.
pub open spec fn reads_as(wanted: u8, held: u8, case_counts: bool) -> bool {
    if !case_counts && 0x41 <= held && held <= 0x5a {
        wanted - held == 0x20
    } else {
        wanted == held
    }
}

/// A byte that words are made of: `0` to `9`, `A` to `Z`, `a` to `z` and `_`.
pub open spec fn makes_words(b: u8) -> bool {
    ||| 0x30 <= b && b <= 0x39
    ||| 0x41 <= b && b <= 0x5a
    ||| 0x61 <= b && b <= 0x7a
    ||| b == 0x5f
}

/// What is looked for stands in the bytes at a place.
pub open spec fn occurs(bytes: Seq<u8>, wanted: Seq<u8>, case_counts: bool, i: int) -> bool {
    &&& i + wanted.len() <= bytes.len()
    &&& forall|k: int|
        0 <= k < wanted.len() ==> reads_as(#[trigger] wanted[k], bytes[i + k], case_counts)
}

/// No word goes on from a stretch of bytes on either side.
pub open spec fn stands_alone(bytes: Seq<u8>, from: int, to: int) -> bool {
    &&& from > 0 ==> !makes_words(bytes[from - 1])
    &&& to < bytes.len() ==> !makes_words(bytes[to])
}

/// A search finds what it looks for at every place where it occurs, whatever is
/// around it unless only whole words are asked for, and nowhere else. Each place is
/// found once, in order, and the matches are numbered.
pub proof fn searches_find_every_occurrence_and_no_other(
    bytes: Seq<u8>,
    query: Seq<char>,
    options: FindOptions,
    i: int,
)
    requires
        bytes.len() < usize::MAX,
        query.len() > 0,
        0 <= i < bytes.len(),
    ensures
        ({
            let wanted = encode_utf8(
                if options.case_sensitive {
                    query
                } else {
                    lowercase_text(query)
                },
            );
            let found = FindSessionModel::searched(bytes, query, options).matches;
            let end = i + wanted.len();
            &&& (occurs(bytes, wanted, options.case_sensitive, i) && (!options.whole_word
                || stands_alone(bytes, i, end))) <==> exists|k: int|
                0 <= k < found.len() && (#[trigger] found[k]).byte_range.start == i
                    && found[k].byte_range.end == end
            &&& forall|k: int|
                0 <= k < found.len() ==> (#[trigger] found[k]).match_index == k && found[k].length
                    == wanted.len() && found[k].byte_range.end == found[k].byte_range.start
                    + wanted.len() && found[k].byte_range.start < bytes.len()
            &&& forall|k: int, l: int|
                0 <= k < l < found.len() ==> (#[trigger] found[k]).byte_range.start < (
                #[trigger] found[l]).byte_range.start
        }),
{
    let wanted = needle_of(query, options);
    let found = FindSessionModel::searched(bytes, query, options).matches;
    let end = i + wanted.len();
    assert(found == found_from(bytes, wanted, options, 0, 0));
    every_occurrence_is_found(bytes, wanted, options, i);
    lemma_numbered(bytes, wanted, options, 0, 0);
    lemma_stands(bytes, wanted, options, i);
    if stands_at(bytes, wanted, options, i) {
        let k = choose|k: int|
            0 <= k < found.len() && (#[trigger] found[k]).byte_range == (ByteRange {
                start: i as u64,
                end: end as u64,
            });
        assert(found[k].byte_range.start == i && found[k].byte_range.end == end);
    }
    if exists|k: int|
        0 <= k < found.len() && (#[trigger] found[k]).byte_range.start == i
            && found[k].byte_range.end == end {
        let k = choose|k: int|
            0 <= k < found.len() && (#[trigger] found[k]).byte_range.start == i
                && found[k].byte_range.end == end;
        assert(found[k].byte_range == (ByteRange { start: i as u64, end: end as u64 }));
    }
}

proof fn lemma_stands(bytes: Seq<u8>, wanted: Seq<u8>, options: FindOptions, i: int)
    requires
        0 <= i < bytes.len(),
    ensures
        stands_at(bytes, wanted, options, i) == (occurs(bytes, wanted, options.case_sensitive, i)
            && (!options.whole_word || stands_alone(bytes, i, i + wanted.len()))),
{
    assert forall|k: int| 0 <= k < wanted.len() && i + wanted.len() <= bytes.len() implies reads_as(
        #[trigger] wanted[k],
        bytes[i + k],
        options.case_sensitive,
    ) == (wanted[k] == (if options.case_sensitive {
        bytes[i + k]
    } else {
        lowered(bytes[i + k])
    })) by {}
    if i > 0 {
        assert(is_word(bytes[i - 1]) == makes_words(bytes[i - 1]));
    }
}

proof fn lemma_numbered(bytes: Seq<u8>, wanted: Seq<u8>, options: FindOptions, i: int, n: int)
    requires
        0 <= n <= i <= bytes.len() < usize::MAX,
    ensures
        ({
            let found = found_from(bytes, wanted, options, i, n);
            &&& found.len() <= bytes.len() - i
            &&& forall|k: int|
                0 <= k < found.len() ==> (#[trigger] found[k]).match_index == n + k
                    && found[k].length == wanted.len() && found[k].byte_range.end
                    == found[k].byte_range.start + wanted.len() && i <= found[k].byte_range.start
                    < bytes.len() && found[k] == match_at(
                    bytes,
                    wanted.len(),
                    found[k].byte_range.start as int,
                    n + k,
                )
        }),
    decreases bytes.len() - i,
{
    if i < bytes.len() {
        if stands_at(bytes, wanted, options, i) {
            lemma_numbered(bytes, wanted, options, i + 1, n + 1);
            let found = found_from(bytes, wanted, options, i, n);
            let rest = found_from(bytes, wanted, options, i + 1, n + 1);
            assert forall|k: int| 0 <= k < found.len() implies (
            #[trigger] found[k]).match_index == n + k && found[k].length == wanted.len()
                && found[k].byte_range.end == found[k].byte_range.start + wanted.len() && i
                <= found[k].byte_range.start < bytes.len() && found[k] == match_at(
                bytes,
                wanted.len(),
                found[k].byte_range.start as int,
                n + k,
            ) by {
                if k > 0 {
                    assert(found[k] == rest[k - 1]);
                }
            }
        } else {
            lemma_numbered(bytes, wanted, options, i + 1, n);
        }
    }
}

/// A line of the bytes ends with this byte: a line feed, or a carriage return with
/// something else than a line feed behind it.
pub open spec fn closes_line(bytes: Seq<u8>, p: int) -> bool {
    ||| bytes[p] == 0x0a
    ||| bytes[p] == 0x0d && p + 1 < bytes.len() && bytes[p + 1] != 0x0a
}

/// The places up to here at which lines end.
pub open spec fn line_ends(bytes: Seq<u8>, i: int) -> Set<int> {
    Set::new(|p: int| 0 <= p <= i && closes_line(bytes, p))
}

proof fn lemma_line_ends(bytes: Seq<u8>, i: int)
    requires
        -1 <= i < bytes.len(),
    ensures
        line_ends(bytes, i).finite(),
        line_of(bytes, i) == line_ends(bytes, i).len() + 1,
        line_ends(bytes, i).len() <= i + 1,
        0 <= line_start_of(bytes, i) <= i + 1,
        line_start_of(bytes, i) == 0 || closes_line(bytes, line_start_of(bytes, i) - 1),
        forall|p: int| line_start_of(bytes, i) <= p <= i ==> !#[trigger] closes_line(bytes, p),
    decreases i + 1,
{
    if i < 0 {
        assert(line_ends(bytes, i) =~= Set::<int>::empty());
    } else {
        lemma_line_ends(bytes, i - 1);
        assert(ends_line(bytes, i) == closes_line(bytes, i));
        if closes_line(bytes, i) {
            assert(line_ends(bytes, i) =~= line_ends(bytes, i - 1).insert(i));
        } else {
            assert(line_ends(bytes, i) =~= line_ends(bytes, i - 1));
        }
    }
}

/// A match is on the line behind as many line ends as there are up to it, and its
/// column counts the bytes since the last of them.
pub proof fn matches_know_their_line(
    bytes: Seq<u8>,
    query: Seq<char>,
    options: FindOptions,
    k: int,
    start: int,
)
    requires
        bytes.len() < u32::MAX,
        0 <= k < FindSessionModel::searched(bytes, query, options).matches.len(),
        0 <= start <= FindSessionModel::searched(
            bytes,
            query,
            options,
        ).matches[k].byte_range.start < bytes.len(),
        start == 0 || closes_line(bytes, start - 1),
        forall|p: int|
            start <= p <= FindSessionModel::searched(
                bytes,
                query,
                options,
            ).matches[k].byte_range.start ==> !#[trigger] closes_line(bytes, p),
    ensures
        ({
            let found = FindSessionModel::searched(bytes, query, options).matches[k];
            &&& found.line_number == line_ends(bytes, found.byte_range.start as int).len() + 1
            &&& found.column == found.byte_range.start - start
        }),
{
    let wanted = needle_of(query, options);
    lemma_numbered(bytes, wanted, options, 0, 0);
    let found: FindMatch = FindSessionModel::searched(bytes, query, options).matches[k];
    let at = found.byte_range.start as int;
    assert(found == match_at(bytes, wanted.len(), at, k));
    lemma_line_ends(bytes, at);
    let known = line_start_of(bytes, at);
    if known > 0 {
        assert(closes_line(bytes, known - 1));
    }
    if start > 0 {
        assert(closes_line(bytes, start - 1));
    }
    assert(known == start);
}

/// A query without a character finds nothing. A search shows its first match, if
/// there is one.
pub proof fn searches_start_at_the_first_match(
    bytes: Seq<u8>,
    query: Seq<char>,
    options: FindOptions,
)
    ensures
        ({
            let session = FindSessionModel::searched(bytes, query, options);
            &&& query.len() == 0 ==> session.matches.len() == 0
            &&& session.query == query
            &&& session.current() == (if session.matches.len() > 0 {
                Some(session.matches[0])
            } else {
                None::<FindMatch>
            })
        }),
{
}

/// Going on from the last match leads to the first; else to the one behind.
pub proof fn next_goes_round(session: FindSessionModel, k: int)
    requires
        session.wf(),
        session.matches.len() <= usize::MAX,
        session.active_match_idx == Some(k as usize),
        0 <= k < session.matches.len(),
    ensures
        session.next().matches == session.matches,
        session.next().current() == Some(session.matches[(k + 1) % (session.matches.len() as int)]),
{
    let n = session.matches.len() as int;
    if k + 1 < n {
        vstd::arithmetic::div_mod::lemma_small_mod((k + 1) as nat, n as nat);
    } else {
        vstd::arithmetic::div_mod::lemma_mod_self_0(n);
    }
}

} // verus!
