//! What a search of an extent keeps of what the matcher hands out.
use vstd::prelude::*;

use super::{
    extent_steps, extent_stops, extent_works, is_extent_query, scanned_so, scanner_ok,
    ExtentHits, ExtentQuery, ExtentQueryError, ExtentQueryOptions, ExtentQueryState, Input,
};
use crate::identity::{ByteRange, QueryGeneration};
use crate::search::reading_window::rows::{lemma_raw, stands_at};
use crate::search::reading_window::DecodedUtf8Range;
use crate::search::source::StreamError;
use crate::search::streaming::{ByteBatch, ByteMatch};

verus! {

/// A hit stands where the matcher said. In original bytes that is so far behind the
/// start of the scope; in text it is that range of the text, and the bytes that it
/// stands for.
pub open spec fn lies_at(
    input: Input,
    found: ByteMatch,
    hit: (u64, ByteRange, Option<DecodedUtf8Range>),
) -> bool {
    match input {
        Input::Raw { extent, scope } => {
            &&& hit.2 is None
            &&& hit.1.start == scope.start + found.start
            &&& hit.1.end == scope.start + found.end
        },
        Input::Text { text } => {
            &&& hit.2 == Some(DecodedUtf8Range { start: found.start, end: found.end })
            &&& stands_at(text.map@, hit.1.start, text.decoded_base + found.start)
            &&& stands_at(text.map@, hit.1.end, text.decoded_base + found.end)
        },
    }
}

/// A search has kept what was handed to it: the hits are the first of those, in order
/// and counted from one. It has all of them while it goes on and when it is finished,
/// which is at the end of the scope, and as many as it may have when it was cut short.
pub open spec fn accounts(m: ExtentHits, input: Input, handed: Seq<ByteMatch>) -> bool {
    &&& m.hits.len() <= handed.len()
    &&& m.hits.len() <= m.core.options.max_matches
    &&& m.core.seen == m.hits.len()
    &&& forall|k: int|
        0 <= k < m.hits.len() ==> lies_at(input, handed[k], #[trigger] m.hits[k])
    &&& forall|k: int| 0 <= k < m.hits.len() ==> (#[trigger] m.hits[k]).0 == k + 1
    &&& m.core.state is Pending || m.core.state is Finished ==> m.hits.len() == handed.len()
    &&& m.core.state is Finished ==> m.core.scanned == input.content().len()
    &&& m.core.state is Truncated ==> m.hits.len() == m.core.options.max_matches
        && handed.len() > m.hits.len()
}

/// The matcher handed this out from where the search stood, asked for one more than
/// there was room for, or for a full batch.
pub open spec fn handed_out<
    M: FnMut(&[u8], &[u8], usize, usize, usize) -> Result<ByteBatch, StreamError>,
>(m: ExtentHits, input: Input, needle: Seq<u8>, bytes: usize, search: M, batch: ByteBatch) -> bool {
    exists|limit: usize| #[trigger]
        scanned_so(search, needle, input.content(), m.core.scanned, bytes, limit, Ok(batch)) && (
        limit == m.core.options.max_matches - m.hits.len() + 1 || limit == 64)
}

proof fn lemma_place(input: Input, found: ByteMatch, seen: u64)
    ensures
        input.place(found) matches Ok((original, text)) ==> lies_at(
            input,
            found,
            (seen, original, text),
        ),
{
    if let Input::Text { text } = input {
        lemma_raw(text.map@, (text.decoded_base + found.start) as u64, 0);
        lemma_raw(text.map@, (text.decoded_base + found.end) as u64, 0);
    }
}

proof fn lemma_taken(m: ExtentHits, input: Input, found: Seq<ByteMatch>, i: int, before: Seq<ByteMatch>)
    requires
        0 <= i <= found.len(),
        m.core.state is Pending,
        accounts(m, input, before + found.subrange(0, i)),
        m.core.options.max_matches <= 4096,
    ensures
        ({
            let (after, failure) = m.taken(input, found, i);
            &&& accounts(after, input, before + found)
            &&& after.core.scanned == m.core.scanned
            &&& after.core.options == m.core.options
            &&& failure is None ==> after.core.state is Pending || after.core.state is Truncated
            &&& failure matches Some(e) ==> after.core.state == ExtentQueryState::Failed(e)
        }),
    decreases found.len() - i,
{
    let handed = before + found.subrange(0, i);
    if i >= found.len() {
        assert(found.subrange(0, i) =~= found);
    } else {
        assert forall|k: int| 0 <= k < handed.len() implies handed[k] == #[trigger] (before
            + found)[k] by {}
        if m.hits.len() < m.core.options.max_matches {
            lemma_place(input, found[i], m.core.seen.wrapping_add(1));
            if let Ok((original, window_text)) = input.place(found[i]) {
                let seen = m.core.seen.wrapping_add(1);
                let next = ExtentHits {
                    core: super::ExtentCore { seen, ..m.core },
                    hits: m.hits.push((seen, original, window_text)),
                };
                let more = before + found.subrange(0, i + 1);
                assert(more =~= handed.push(found[i]));
                assert forall|k: int| 0 <= k < next.hits.len() implies lies_at(
                    input,
                    more[k],
                    #[trigger] next.hits[k],
                ) by {
                    if k < m.hits.len() {
                        assert(next.hits[k] == m.hits[k]);
                    }
                }
                assert forall|k: int| 0 <= k < next.hits.len() implies (
                #[trigger] next.hits[k]).0 == k + 1 by {
                    if k < m.hits.len() {
                        assert(next.hits[k] == m.hits[k]);
                    }
                }
                lemma_taken(next, input, found, i + 1, before);
            }
        }
    }
}

/// A new search has kept nothing, of nothing.
pub proof fn searches_start_with_nothing<A: FnOnce(u64) -> bool>(
    query: ExtentQuery,
    input: Input,
    needle: Seq<u8>,
    options: ExtentQueryOptions,
    limit: int,
    reserve: A,
)
    requires
        is_extent_query(Ok(query), input, needle, options, limit, reserve),
    ensures
        accounts(query.found(), input, Seq::empty()),
        query.found().core.scanned == 0,
        query.found().core.options == options,
        0 < needle.len() <= limit,
        query.found().core.state is Finished <==> input.content().len() == 0,
{
}

proof fn lemma_scanned<
    M: FnMut(&[u8], &[u8], usize, usize, usize) -> Result<ByteBatch, StreamError>,
>(
    search: M,
    needle: Seq<u8>,
    content: Seq<u8>,
    m: ExtentHits,
    max_bytes: usize,
    batch: ByteBatch,
)
    requires
        scanner_ok(search),
        m.core.scanned <= content.len(),
        scanned_so(
            search,
            needle,
            content,
            m.core.scanned,
            max_bytes,
            m.batch_limit(),
            Ok(batch),
        ),
    ensures
        m.core.scanned + batch.consumed <= content.len() <= usize::MAX,
{
    let (wanted, held) = choose|wanted: &[u8], held: &[u8]|
        wanted@ == needle && held@ == content && #[trigger] call_ensures(
            search,
            (wanted, held, m.core.scanned, max_bytes, m.batch_limit()),
            Ok(batch),
        );
    assert(held@.len() == held.len());
}

proof fn lemma_works<
    M: FnMut(&[u8], &[u8], usize, usize, usize) -> Result<ByteBatch, StreamError>,
>(
    m: ExtentHits,
    input: Input,
    needle: Seq<u8>,
    max_bytes: usize,
    search: M,
    end: ExtentHits,
    r: Result<ExtentQueryState, ExtentQueryError>,
    handed: Seq<ByteMatch>,
) -> (batch: Option<ByteBatch>)
    requires
        extent_works(m, input, needle, max_bytes, search, end, r),
        m.core.state is Pending,
        accounts(m, input, handed),
        m.core.options.max_matches <= 4096,
        m.core.scanned <= input.content().len(),
        scanner_ok(search),
    ensures
        match batch {
            None => accounts(end, input, handed) && end.core.scanned == m.core.scanned
                && end.core.state is Failed,
            Some(batch) => handed_out(m, input, needle, max_bytes, search, batch) && accounts(
                end,
                input,
                handed + batch.hits@,
            ) && end.core.scanned == m.core.scanned + batch.consumed,
        },
        end.core.options == m.core.options,
        r is Err <==> end.core.state is Failed,
{
    let answer = choose|answer: Result<ByteBatch, StreamError>|
        #[trigger] scanned_so(
            search,
            needle,
            input.content(),
            m.core.scanned,
            max_bytes,
            m.batch_limit(),
            answer,
        ) && match answer {
            Err(e) => {
                let error = ExtentQueryError::Stream(e);
                end == m.with_state(ExtentQueryState::Failed(error)) && (r matches Err(f) && f
                    == error)
            },
            Ok(batch) => {
                let (after, failure) = m.absorbed(input, batch.consumed, batch.hits@);
                match failure {
                    Some(e) => end == after && (r matches Err(f) && f == e),
                    None => end == after.settled(input.content().len()) && (r matches Ok(state)
                        && state == end.core.state),
                }
            },
        };
    match answer {
        Err(e) => None,
        Ok(batch) => {
            assert(handed_out(m, input, needle, max_bytes, search, batch));
            lemma_scanned(search, needle, input.content(), m, max_bytes, batch);
            let passed = ExtentHits {
                core: super::ExtentCore {
                    scanned: (m.core.scanned + batch.consumed) as usize,
                    last_step_bytes: batch.consumed,
                    ..m.core
                },
                ..m
            };
            assert(handed + batch.hits@.subrange(0, 0) =~= handed);
            lemma_taken(passed, input, batch.hits@, 0, handed);
            Some(batch)
        },
    }
}

/// Whatever a step does, the search has kept what was handed to it: what it had before,
/// and all that the matcher hands out in this step, if it is asked at all. A search that
/// has ended is changed by no step, except that it can be canceled.
pub proof fn steps_keep_what_is_handed_out<
    M: FnMut(&[u8], &[u8], usize, usize, usize) -> Result<ByteBatch, StreamError>,
    C: FnMut() -> bool,
>(
    m: ExtentHits,
    input: Input,
    needle: Seq<u8>,
    max_bytes: usize,
    active: QueryGeneration,
    search: M,
    canceled: C,
    end: ExtentHits,
    r: Result<ExtentQueryState, ExtentQueryError>,
    handed: Seq<ByteMatch>,
) -> (batch: Option<ByteBatch>)
    requires
        extent_steps(m, input, needle, max_bytes, active, search, canceled, end, r),
        accounts(m, input, handed),
        m.core.options.max_matches <= 4096,
        m.core.scanned <= input.content().len(),
        scanner_ok(search),
    ensures
        match batch {
            None => accounts(end, input, handed) && end.core.scanned == m.core.scanned && (
            end.core.state == m.core.state || end.core.state is Canceled || end.core.state
                is Failed),
            Some(batch) => m.core.state is Pending && active == m.core.options.generation
                && max_bytes > 0 && handed_out(m, input, needle, max_bytes, search, batch)
                && accounts(end, input, handed + batch.hits@) && end.core.scanned
                == m.core.scanned + batch.consumed,
        },
        end.core.options == m.core.options,
        active != m.core.options.generation ==> r is Err && end.core.state is Canceled,
        r matches Ok(state) ==> state == end.core.state,
{
    let fresh = ExtentHits { core: super::ExtentCore { last_step_bytes: 0, ..m.core }, ..m };
    assert forall|batch: ByteBatch| #[trigger]
        handed_out(fresh, input, needle, max_bytes, search, batch) implies handed_out(
        m,
        input,
        needle,
        max_bytes,
        search,
        batch,
    ) by {}
    assert(accounts(fresh, input, handed));
    if active != m.core.options.generation || end == fresh || end == fresh.with_state(
        ExtentQueryState::Canceled,
    ) {
        None
    } else if extent_works(fresh, input, needle, max_bytes, search, end, r) && m.core.state
        is Pending && max_bytes > 0 {
        let batch = lemma_works(fresh, input, needle, max_bytes, search, end, r, handed);
        if let Some(batch) = batch {
            assert(handed_out(m, input, needle, max_bytes, search, batch));
        }
        batch
    } else {
        assert(extent_stops(fresh, input, needle, max_bytes, search, end));
        let worked = choose|worked: ExtentHits|
            #[trigger] extent_works(
                fresh,
                input,
                needle,
                max_bytes,
                search,
                worked,
                Ok(worked.core.state),
            ) && end == worked.with_state(ExtentQueryState::Canceled);
        let batch = lemma_works(
            fresh,
            input,
            needle,
            max_bytes,
            search,
            worked,
            Ok(worked.core.state),
            handed,
        );
        if let Some(batch) = batch {
            assert(handed_out(m, input, needle, max_bytes, search, batch));
        }
        batch
    }
}

} // verus!
