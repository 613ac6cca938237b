//! What a streaming search makes of its input: every byte is handed to the host's
//! matcher once, in order, and everything that the matcher reports is kept, but for
//! what lies within the mark or between units.
use vstd::prelude::*;

use super::report::{fresh_search, starts};
use super::stepping::{
    advances, begins, fills, frames, goes_on, least, matched, matcher_ok, matches_on,
    prepares, reads_on, steps, worked_on,
};
use super::{
    ByteBatch, ByteMatch, NeedleModel, SearchModel, StreamCore, StreamReadError, StreamReadOptions,
    StreamReadState, StreamReadStep, StreamReply, StreamingHit, StreamingMode,
    MAX_STREAM_STEP_CALLS,
};
use crate::identity::{ByteRange, QueryGeneration};
use crate::model::{lemma_filter_end, lemma_filter_from};
use crate::search::reader::DetectedEncoding;
use crate::search::source::{CaptureRequest, SourceEncoding, SourceError, StreamError};

verus! {

/// Whether text comes in units of two bytes.
pub open spec fn two_bytes(encoding: Option<SourceEncoding>) -> bool {
    ||| encoding == Some(SourceEncoding::Known(DetectedEncoding::Utf16Le))
    ||| encoding == Some(SourceEncoding::Known(DetectedEncoding::Utf16Be))
}

/// Whether an occurrence is one of the text: behind the mark, and at the start of a
/// unit. Among raw bytes every occurrence is one.
pub open spec fn proper(core: StreamCore, hit: ByteMatch) -> bool {
    core.text ==> hit.start >= core.header && (two_bytes(core.encoding) ==> hit.start % 2 == 0)
}

/// The proper ones of some occurrences, in order.
pub open spec fn proper_ones(core: StreamCore, found: Seq<ByteMatch>) -> Seq<ByteMatch> {
    found.filter(|hit: ByteMatch| proper(core, hit))
}

/// A hit stands for an occurrence, the `n`th of all.
pub open spec fn stands_for(hit: StreamingHit, found: ByteMatch, n: int) -> bool {
    hit.occurrence == n && hit.range.start == found.start && hit.range.end == found.end
}

/// After a batch, the hits are the earlier ones and behind them exactly the proper
/// occurrences of the batch, in order, and all of them are counted. If they are more
/// than the limit has room for, the search is cut off there and says so.
pub proof fn batches_are_kept_whole(m: SearchModel, found: Seq<ByteMatch>)
    requires
        m.hits.len() <= m.core.options.max_matches,
        m.core.matches_seen + (m.core.options.max_matches - m.hits.len()) < u64::MAX,
    ensures
        ({
            let (end, r) = m.taken(found, 0);
            let kept = proper_ones(m.core, found);
            let room = m.core.options.max_matches - m.hits.len();
            let count = if kept.len() <= room {
                kept.len() as int
            } else {
                room
            };
            &&& r is Ok ==> {
                &&& end.hits.len() == m.hits.len() + count
                &&& forall|k: int| 0 <= k < m.hits.len() ==> #[trigger] end.hits[k] == m.hits[k]
                &&& forall|k: int|
                    m.hits.len() <= k < end.hits.len() ==> stands_for(
                        #[trigger] end.hits[k],
                        kept[k - m.hits.len()],
                        m.core.matches_seen + 1 + k - m.hits.len(),
                    )
            }
            &&& r is Ok && kept.len() <= room ==> end.core.matches_seen == m.core.matches_seen
                + kept.len() && end.core.state == m.core.state
            &&& r is Ok && kept.len() > room ==> end.core.matches_seen == m.core.matches_seen + room
                + 1 && end.core.state is Truncated
            &&& r is Err <==> exists|k: int|
                0 <= k < count && (#[trigger] kept[k]).start > kept[k].end
            &&& r is Err ==> r == Err::<(), StreamReadError>(StreamReadError::InvalidRange)
        }),
{
    lemma_kept(m, found, 0);
    assert(found.skip(0) =~= found);
}

proof fn lemma_kept(m: SearchModel, found: Seq<ByteMatch>, i: int)
    requires
        0 <= i <= found.len(),
        m.hits.len() <= m.core.options.max_matches,
        m.core.matches_seen + (m.core.options.max_matches - m.hits.len()) < u64::MAX,
    ensures
        ({
            let (end, r) = m.taken(found, i);
            let kept = proper_ones(m.core, found.skip(i));
            let room = m.core.options.max_matches - m.hits.len();
            let count = if kept.len() <= room {
                kept.len() as int
            } else {
                room
            };
            &&& kept.len() <= found.len() - i
            &&& r is Ok ==> {
                &&& end.hits.len() == m.hits.len() + count
                &&& forall|k: int| 0 <= k < m.hits.len() ==> #[trigger] end.hits[k] == m.hits[k]
                &&& forall|k: int|
                    m.hits.len() <= k < end.hits.len() ==> stands_for(
                        #[trigger] end.hits[k],
                        kept[k - m.hits.len()],
                        m.core.matches_seen + 1 + k - m.hits.len(),
                    )
            }
            &&& r is Ok && kept.len() <= room ==> end.core.matches_seen == m.core.matches_seen
                + kept.len() && end.core.state == m.core.state
            &&& r is Ok && kept.len() > room ==> end.core.matches_seen == m.core.matches_seen + room
                + 1 && end.core.state is Truncated
            &&& r is Err <==> exists|k: int|
                0 <= k < count && (#[trigger] kept[k]).start > kept[k].end
            &&& r is Err ==> r == Err::<(), StreamReadError>(StreamReadError::InvalidRange)
            &&& end.buffer == m.buffer
            &&& end.core == (StreamCore {
                matches_seen: end.core.matches_seen,
                state: end.core.state,
                ..m.core
            })
        }),
    decreases found.len() - i,
{
    let keep = |hit: ByteMatch| proper(m.core, hit);
    let kept = proper_ones(m.core, found.skip(i));
    if i < found.len() {
        lemma_filter_from(found, keep, i);
        let rest = proper_ones(m.core, found.skip(i + 1));
        if !proper(m.core, found[i]) {
            lemma_kept(m, found, i + 1);
        } else {
            assert(m.counts(found[i]));
            assert(kept =~= seq![found[i]] + rest);
            assert(kept[0] == found[i]);
            assert forall|k: int| 0 <= k < rest.len() implies #[trigger] rest[k] == kept[k + 1] by {}
            let seen = m.core.matches_seen.wrapping_add(1);
            assert(seen == m.core.matches_seen + 1);
            if m.hits.len() < m.core.options.max_matches && found[i].start <= found[i].end {
                let next = SearchModel {
                    core: StreamCore { matches_seen: seen, ..m.core },
                    hits: m.hits.push(
                        StreamingHit {
                            occurrence: seen,
                            range: ByteRange { start: found[i].start, end: found[i].end },
                        },
                    ),
                    ..m
                };
                lemma_kept(next, found, i + 1);
                assert(proper_ones(next.core, found.skip(i + 1)) =~= rest) by {
                    assert((|hit: ByteMatch| proper(next.core, hit)) =~= keep);
                }
                let (end, r) = m.taken(found, i);
                assert((end, r) == next.taken(found, i + 1));
                if r is Ok {
                    assert forall|k: int| 0 <= k < m.hits.len() implies #[trigger] end.hits[k]
                        == m.hits[k] by {
                        assert(end.hits[k] == next.hits[k]);
                    }
                    assert forall|k: int| m.hits.len() <= k < end.hits.len() implies stands_for(
                        #[trigger] end.hits[k],
                        kept[k - m.hits.len()],
                        m.core.matches_seen + 1 + k - m.hits.len(),
                    ) by {
                        if k == m.hits.len() {
                            assert(end.hits[k] == next.hits[k]);
                        } else {
                            assert(rest[k - next.hits.len()] == kept[k - m.hits.len()]);
                        }
                    }
                }
                let room = m.core.options.max_matches - m.hits.len();
                if exists|k: int|
                    0 <= k < rest.len() && k < room - 1 && (#[trigger] rest[k]).start > rest[k].end {
                    let k = choose|k: int|
                        0 <= k < rest.len() && k < room - 1 && (#[trigger] rest[k]).start
                            > rest[k].end;
                    assert(kept[k + 1].start > kept[k + 1].end);
                }
                if exists|k: int|
                    0 <= k < kept.len() && k < room && (#[trigger] kept[k]).start > kept[k].end {
                    let k = choose|k: int|
                        0 <= k < kept.len() && k < room && (#[trigger] kept[k]).start > kept[k].end;
                    assert(rest[k - 1] == kept[k]);
                    assert(rest[k - 1].start > rest[k - 1].end);
                }
            }
        }
    } else {
        lemma_filter_end(found, keep);
    }
}

/// The literal that a matcher is to be given for text in an encoding.
pub open spec fn literal_for(needle: NeedleModel, encoding: Option<SourceEncoding>) -> Seq<u8> {
    if needle.mode == StreamingMode::OriginalBytes {
        needle.utf8
    } else if encoding == Some(SourceEncoding::Known(DetectedEncoding::Utf16Le)) {
        needle.little
    } else if encoding == Some(SourceEncoding::Known(DetectedEncoding::Utf16Be)) {
        needle.big
    } else {
        needle.utf8
    }
}

/// The host gives the bytes of an input in order, from a position on.
pub open spec fn gives(
    input: Seq<u8>,
    at: int,
    replies: spec_fn(usize, StreamReply) -> bool,
) -> bool {
    forall|count: usize, reply: StreamReply| #[trigger]
        replies(count, reply) ==> (reply matches StreamReply::Bytes(part) ==> (part@.len() > 0 ==> at
            + part@.len() <= input.len() && part@ == input.subrange(at, at + part@.len())))
}

/// A stretch of the input that the matcher was handed: where it starts, how long it
/// is, how much of it the matcher took, and what it reported.
pub ghost struct Handed {
    pub at: int,
    pub offered: int,
    pub took: int,
    pub found: Seq<ByteMatch>,
}

/// Where the matcher goes on behind some stretches.
pub open spec fn behind(handed: Seq<Handed>) -> int {
    if handed.len() == 0 {
        0
    } else {
        handed.last().at + handed.last().took
    }
}

/// Each stretch starts where the matcher stopped in the one before, the first at the
/// start of the input.
pub open spec fn seamless(handed: Seq<Handed>) -> bool {
    forall|i: int| 0 <= i < handed.len() ==> #[trigger] joined_on(handed, i)
}

/// A stretch starts where the matcher stopped in the one before.
pub open spec fn joined_on(handed: Seq<Handed>, i: int) -> bool {
    handed[i].at == (if i == 0 {
        0
    } else {
        handed[i - 1].at + handed[i - 1].took
    }) && 0 <= handed[i].took <= handed[i].offered
}

/// All that the matcher reported.
pub open spec fn reported(handed: Seq<Handed>) -> Seq<ByteMatch>
    decreases handed.len(),
{
    if handed.len() == 0 {
        Seq::empty()
    } else {
        reported(handed.drop_last()) + handed.last().found
    }
}

proof fn lemma_push(handed: Seq<Handed>, one: Handed)
    requires
        seamless(handed),
        one.at == behind(handed),
        0 <= one.took <= one.offered,
    ensures
        seamless(handed.push(one)),
        behind(handed.push(one)) == one.at + one.took,
        reported(handed.push(one)) == reported(handed) + one.found,
{
    let more = handed.push(one);
    assert(more.drop_last() =~= handed);
    assert forall|i: int| 0 <= i < more.len() implies #[trigger] joined_on(more, i) by {
        if i < handed.len() {
            assert(joined_on(handed, i));
            assert(more[i] == handed[i]);
        }
    }
}

/// The hits behind a batch are the proper ones of all that was reported.
proof fn lemma_hits(m: SearchModel, earlier: Seq<ByteMatch>, found: Seq<ByteMatch>)
    requires
        m.core.state is Pending,
        m.hits.len() <= m.core.options.max_matches <= 4096,
        m.core.matches_seen == m.hits.len(),
        proper_ones(m.core, earlier).len() == m.hits.len(),
        forall|k: int|
            0 <= k < m.hits.len() ==> stands_for(
                #[trigger] m.hits[k],
                proper_ones(m.core, earlier)[k],
                k + 1,
            ),
        m.taken(found, 0).1 is Ok,
    ensures
        ({
            let end = m.taken(found, 0).0;
            let kept = proper_ones(m.core, earlier + found);
            &&& end.hits.len() <= m.core.options.max_matches
            &&& if kept.len() <= m.core.options.max_matches {
                &&& end.core.state is Pending
                &&& end.hits.len() == kept.len()
                &&& end.core.matches_seen == kept.len()
            } else {
                &&& end.core.state is Truncated
                &&& end.hits.len() == m.core.options.max_matches
                &&& end.core.matches_seen == end.hits.len() + 1
            }
            &&& forall|k: int|
                0 <= k < end.hits.len() ==> stands_for(#[trigger] end.hits[k], kept[k], k + 1)
            &&& end.buffer == m.buffer
            &&& end.core == (StreamCore {
                matches_seen: end.core.matches_seen,
                state: end.core.state,
                ..m.core
            })
        }),
{
    let keep = |hit: ByteMatch| proper(m.core, hit);
    Seq::filter_distributes_over_add(earlier, found, keep);
    lemma_kept(m, found, 0);
    assert(found.skip(0) =~= found);
    let before = proper_ones(m.core, earlier);
    let fresh = proper_ones(m.core, found);
    let all = proper_ones(m.core, earlier + found);
    assert(all == before + fresh);
    let end = m.taken(found, 0).0;
    assert forall|k: int| 0 <= k < end.hits.len() implies stands_for(
        #[trigger] end.hits[k],
        all[k],
        k + 1,
    ) by {
        if k < m.hits.len() {
            assert(end.hits[k] == m.hits[k]);
            assert(all[k] == before[k]);
        } else {
            assert(all[k] == fresh[k - m.hits.len()]);
        }
    }
}

/// The hosts of a search.
pub ghost struct Seeker<D, V, M, C> {
    pub detect: D,
    pub check: V,
    pub search: M,
    pub canceled: C,
}

impl<
    D: FnMut(&Vec<u8>) -> SourceEncoding,
    V: FnMut(&Vec<u8>, usize, SourceEncoding, u64) -> Result<Option<u64>, SourceError>,
    M: FnMut(&Vec<u8>, &Vec<u8>, usize, usize, usize, usize) -> Result<ByteBatch, StreamError>,
    C: FnMut() -> bool,
> Seeker<D, V, M, C> {
    /// The matcher said this of a stretch of the input.
    pub open spec fn answered(self, literal: Seq<u8>, input: Seq<u8>, one: Handed) -> bool {
        exists|
            held: Seq<u8>,
            from: usize,
            to: usize,
            bytes: usize,
            hits: usize,
            batch: ByteBatch,
        |
            {
                &&& #[trigger] matched(
                    self.search,
                    literal,
                    held,
                    from,
                    to,
                    bytes,
                    hits,
                    Ok::<ByteBatch, StreamError>(batch),
                )
                &&& from <= to <= held.len()
                &&& held.subrange(from as int, to as int) == input.subrange(
                    one.at,
                    one.at + one.offered,
                )
                &&& to - from == one.offered
                &&& batch.consumed == one.took
                &&& batch.hits@ == one.found
            }
    }

    /// A search of an input that has just begun.
    pub open spec fn begun(self, needle: NeedleModel, input: Seq<u8>, m: SearchModel) -> bool {
        exists|request: CaptureRequest, options: StreamReadOptions|
            #[trigger] starts(
                Ok::<SearchModel, StreamReadError>(m),
                fresh_search(request, input.len() as u64, needle, options),
                self.detect,
                self.check,
            ) && options.max_matches <= 4096
    }

    /// One step of a search of an input.
    pub open spec fn stepped(
        self,
        needle: NeedleModel,
        input: Seq<u8>,
        m: SearchModel,
        end: SearchModel,
    ) -> bool {
        exists|
            step: StreamReadStep,
            active: QueryGeneration,
            replies: spec_fn(usize, StreamReply) -> bool,
            said: Result<StreamReadState, StreamReadError>,
        |
            gives(input, m.core.stats.bytes_read as int, replies) && said is Ok && #[trigger] steps(
                m,
                needle,
                step,
                active,
                replies,
                self.detect,
                self.check,
                self.search,
                self.canceled,
                end,
                said,
            )
    }

    /// The states of a search of an input, from its start on.
    pub open spec fn pursues(
        self,
        needle: NeedleModel,
        input: Seq<u8>,
        states: Seq<SearchModel>,
    ) -> bool {
        &&& states.len() > 0
        &&& self.begun(needle, input, states[0])
        &&& forall|i: int|
            0 <= i < states.len() - 1 ==> self.stepped(
                needle,
                input,
                #[trigger] states[i],
                states[i + 1],
            )
    }

    /// A search of an input may come to this.
    pub open spec fn reaches(self, needle: NeedleModel, input: Seq<u8>, m: SearchModel) -> bool {
        exists|states: Seq<SearchModel>|
            #[trigger] self.pursues(needle, input, states) && states.last() == m
    }

    /// Where a search stands: what the matcher was handed is the input up to here, and
    /// the hits are the proper ones of what it reported.
    pub open spec fn tracks(
        self,
        needle: NeedleModel,
        input: Seq<u8>,
        m: SearchModel,
        handed: Seq<Handed>,
    ) -> bool {
        let core = m.core;
        let kept = proper_ones(core, reported(handed));
        &&& core.length == input.len()
        &&& core.text == (needle.mode != StreamingMode::OriginalBytes)
        &&& core.options.max_matches <= 4096
        &&& core.base + m.buffer.len() == core.stats.bytes_read <= input.len()
        &&& m.buffer == input.subrange(core.base as int, core.stats.bytes_read as int)
        &&& core.consumed <= core.ready <= m.buffer.len()
        &&& seamless(handed)
        &&& behind(handed) == core.base + core.consumed
        &&& forall|i: int|
            0 <= i < handed.len() ==> self.answered(
                literal_for(needle, core.encoding),
                input,
                #[trigger] handed[i],
            )
        &&& core.text && !core.started ==> handed.len() == 0 && core.ready == 0
        &&& m.hits.len() <= core.options.max_matches
        &&& if core.state is Truncated {
            &&& kept.len() > core.options.max_matches
            &&& m.hits.len() == core.options.max_matches
            &&& core.matches_seen == m.hits.len() + 1
        } else {
            &&& kept.len() == m.hits.len()
            &&& core.matches_seen == kept.len()
        }
        &&& forall|k: int|
            0 <= k < m.hits.len() ==> stands_for(#[trigger] m.hits[k], kept[k], k + 1)
        &&& core.state is Complete ==> behind(handed) == input.len()
    }

    proof fn lemma_fills(
        self,
        input: Seq<u8>,
        m: SearchModel,
        count: usize,
        calls: int,
        replies: spec_fn(usize, StreamReply) -> bool,
        end: SearchModel,
        r: Result<(), StreamReadError>,
    )
        requires
            gives(input, m.core.stats.bytes_read as int, replies),
            fills(m, count, calls, replies, end, r),
            r is Ok,
            input.len() <= u64::MAX,
        ensures
            end.hits == m.hits,
            end.core == (StreamCore { eof: end.core.eof, stats: end.core.stats, ..m.core }),
            m.core.stats.bytes_read <= end.core.stats.bytes_read,
            end.core.stats.bytes_read <= input.len() || end.core.stats.bytes_read
                == m.core.stats.bytes_read,
            end.buffer == m.buffer + input.subrange(
                m.core.stats.bytes_read as int,
                end.core.stats.bytes_read as int,
            ) || end.buffer == m.buffer && end.core.stats.bytes_read == m.core.stats.bytes_read,
        decreases calls - m.core.stats.last_step_calls,
    {
        if !(m.core.stats.last_step_calls >= calls || m.core.stats.last_step_calls >= usize::MAX
            || m.core.stats.read_calls >= m.core.options.max_read_calls) {
            let reply = choose|reply: StreamReply|
                #[trigger] replies(count, reply) && match reply {
                    StreamReply::Bytes(bytes) => if bytes@.len() == 0 {
                        end == m.called().ended() && r is Ok
                    } else if bytes@.len() <= count {
                        end == m.called().received(bytes@) && r is Ok
                    } else {
                        end == m.called() && r == Err::<(), StreamReadError>(
                            StreamReadError::InvalidReadCount,
                        )
                    },
                    StreamReply::Interrupted => fills(
                        m.called().interrupted(),
                        count,
                        calls,
                        replies,
                        end,
                        r,
                    ),
                    StreamReply::Failed => end == m.called() && r == Err::<(), StreamReadError>(
                        StreamReadError::Io,
                    ),
                };
            if reply is Interrupted {
                self.lemma_fills(
                    input,
                    m.called().interrupted(),
                    count,
                    calls,
                    replies,
                    end,
                    r,
                );
            }
        }
    }

    /// Reading more keeps what is known.
    proof fn lemma_reads(
        self,
        needle: NeedleModel,
        input: Seq<u8>,
        m: SearchModel,
        handed: Seq<Handed>,
        step: StreamReadStep,
        replies: spec_fn(usize, StreamReply) -> bool,
        end: SearchModel,
        r: Result<(), StreamReadError>,
    )
        requires
            self.tracks(needle, input, m, handed),
            input.len() <= u64::MAX,
            gives(input, m.core.stats.bytes_read as int, replies),
            reads_on(m, step, replies, end, r),
            m.core.state is Pending,
            r is Ok,
        ensures
            self.tracks(needle, input, end, handed),
            end.core.state is Pending,
    {
        if m.may_read() {
            self.lemma_fills(
                input,
                m,
                m.asks(step) as usize,
                least(step.max_calls as int, MAX_STREAM_STEP_CALLS as int),
                replies,
                end,
                r,
            );
        }
        assert(end.buffer =~= input.subrange(
            end.core.base as int,
            end.core.stats.bytes_read as int,
        ));
        assert((|hit: ByteMatch| proper(end.core, hit)) =~= (|hit: ByteMatch|
            proper(m.core, hit)));
    }

    /// Choosing the encoding and marking off characters keeps what is known.
    proof fn lemma_prepares(
        self,
        needle: NeedleModel,
        input: Seq<u8>,
        m: SearchModel,
        handed: Seq<Handed>,
        end: SearchModel,
        r: Result<(), StreamReadError>,
    )
        requires
            self.tracks(needle, input, m, handed),
            prepares(m, self.detect, self.check, end, r),
            m.core.state is Pending,
            m.core.ready == 0,
            r is Ok,
        ensures
            end.core.state is Pending ==> self.tracks(needle, input, end, handed),
            end.core.state is Pending || end.core.state is UnsupportedText,
    {
        if !m.waits() {
            let middle = choose|middle: SearchModel|
                #[trigger] begins(m, self.detect, middle) && frames(middle, self.check, end, r);
            if handed.len() == 0 {
                assert(reported(handed) =~= Seq::empty());
                reveal(Seq::filter);
            }
            if m.core.started || !m.core.text {
                assert((|hit: ByteMatch| proper(end.core, hit)) =~= (|hit: ByteMatch|
                    proper(m.core, hit)));
            }
        }
    }

    /// Handing bytes to the matcher keeps what is known, with one stretch more.
    #[verifier::rlimit(60)]
    proof fn lemma_matches(
        self,
        needle: NeedleModel,
        input: Seq<u8>,
        m: SearchModel,
        handed: Seq<Handed>,
        step: StreamReadStep,
        end: SearchModel,
        r: Result<(), StreamReadError>,
    ) -> (more: Seq<Handed>)
        requires
            self.tracks(needle, input, m, handed),
            matcher_ok(self.search),
            matches_on(m, needle, step, self.search, end, r),
            m.core.state is Pending,
            m.core.text ==> m.core.started || m.core.ready == 0,
            r is Ok,
        ensures
            self.tracks(needle, input, end, more),
            end.core.state is Pending || end.core.state is Complete || end.core.state is Truncated
                || end.core.state is ByteLimit || end.core.state is CallLimit
                || end.core.state is ShortRead,
    {
        let literal = literal_for(needle, m.core.encoding);
        assert(literal == needle.in_encoding(m.core.encoding));
        if m.core.ready > m.core.consumed {
            let answer = choose|answer: Result<ByteBatch, StreamError>|
                #[trigger] matched(
                    self.search,
                    needle.in_encoding(m.core.encoding),
                    m.buffer,
                    m.core.consumed,
                    m.core.ready,
                    super::stepping::at_most(step.max_bytes, super::STREAM_BUFFER_BYTES),
                    super::stepping::at_most(step.max_hits, super::MAX_STREAM_STEP_HITS),
                    answer,
                ) && match answer {
                    Err(e) => end == m && r == Err::<(), StreamReadError>(
                        StreamReadError::Matcher(e),
                    ),
                    Ok(batch) => {
                        let (after, ok) = m.absorbed(batch.consumed, batch.scanned, batch.hits@);
                        if ok is Err {
                            end == after && r == ok
                        } else {
                            end == after.terminal() && r is Ok
                        }
                    },
                };
            let batch = answer->Ok_0;
            let mid = m.passed(batch.consumed, batch.scanned);
            let one = Handed {
                at: m.core.base + m.core.consumed,
                offered: m.core.ready - m.core.consumed,
                took: batch.consumed as int,
                found: batch.hits@,
            };
            let more = handed.push(one);
            assert(batch.consumed <= one.offered);
            assert(m.buffer.subrange(m.core.consumed as int, m.core.ready as int)
                =~= input.subrange(one.at, one.at + one.offered));
            assert(self.answered(literal, input, one));
            lemma_push(handed, one);
            assert((|hit: ByteMatch| proper(m.core, hit)) =~= (|hit: ByteMatch|
                proper(mid.core, hit)));
            lemma_hits(mid, reported(handed), batch.hits@);
            let after = mid.taken(batch.hits@, 0).0;
            let shut = after.shifted();
            assert(end == shut.terminal());
            assert((|hit: ByteMatch| proper(end.core, hit)) =~= (|hit: ByteMatch|
                proper(mid.core, hit)));
            assert(shut.buffer =~= input.subrange(
                shut.core.base as int,
                shut.core.stats.bytes_read as int,
            ));
            assert forall|i: int| 0 <= i < more.len() implies self.answered(
                literal,
                input,
                #[trigger] more[i],
            ) by {
                if i < handed.len() {
                    assert(more[i] == handed[i]);
                }
            }
            more
        } else {
            assert((|hit: ByteMatch| proper(end.core, hit)) =~= (|hit: ByteMatch|
                proper(m.core, hit)));
            handed
        }
    }

    /// What is known of a search, in any of its states.
    pub open spec fn accounts(self, needle: NeedleModel, input: Seq<u8>, m: SearchModel) -> bool {
        match m.core.state {
            StreamReadState::Canceled | StreamReadState::Failed(_) => true,
            StreamReadState::UnsupportedText => m.hits.len() == 0 && m.core.matches_seen == 0,
            _ => exists|handed: Seq<Handed>| #[trigger] self.tracks(needle, input, m, handed),
        }
    }

    proof fn lemma_worked(
        self,
        needle: NeedleModel,
        input: Seq<u8>,
        m: SearchModel,
        handed: Seq<Handed>,
        step: StreamReadStep,
        replies: spec_fn(usize, StreamReply) -> bool,
        end: SearchModel,
        said: Result<StreamReadState, StreamReadError>,
    )
        requires
            self.tracks(needle, input, m, handed),
            input.len() <= u64::MAX,
            matcher_ok(self.search),
            gives(input, m.core.stats.bytes_read as int, replies),
            m.core.state is Pending,
            worked_on(
                m,
                needle,
                step,
                replies,
                self.detect,
                self.check,
                self.search,
                end,
                said,
            ),
            said is Ok,
        ensures
            self.accounts(needle, input, end),
    {
        let (worked, ok) = choose|worked: SearchModel, ok: Result<(), StreamReadError>|
            #[trigger] advances(
                m,
                needle,
                step,
                replies,
                self.detect,
                self.check,
                self.search,
                worked,
                ok,
            ) && match ok {
                Ok(_) => end == worked && said == Ok::<StreamReadState, StreamReadError>(
                    worked.core.state,
                ),
                Err(e) => end == worked.with_state(StreamReadState::Failed(e)) && said == Err::<
                    StreamReadState,
                    StreamReadError,
                >(e),
            };
        let (got, read) = choose|got: SearchModel, read: Result<(), StreamReadError>|
            read is Ok && #[trigger] reads_on(m, step, replies, got, read) && goes_on(
                got,
                needle,
                step,
                self.detect,
                self.check,
                self.search,
                worked,
                ok,
            );
        self.lemma_reads(needle, input, m, handed, step, replies, got, read);
        if got.core.ready > 0 {
            let more = self.lemma_matches(needle, input, got, handed, step, worked, ok);
            assert(self.tracks(needle, input, end, more));
        } else {
            let (framed, fine) = choose|framed: SearchModel, fine: Result<(), StreamReadError>|
                fine is Ok && #[trigger] prepares(got, self.detect, self.check, framed, fine)
                    && if framed.core.state is Pending {
                    matches_on(framed, needle, step, self.search, worked, ok)
                } else {
                    worked == framed && ok is Ok
                };
            self.lemma_prepares(needle, input, got, handed, framed, fine);
            if framed.core.state is Pending {
                let more = self.lemma_matches(needle, input, framed, handed, step, worked, ok);
                assert(self.tracks(needle, input, end, more));
            } else {
                assert(framed.hits.len() == 0 && framed.core.matches_seen == 0);
            }
        }
    }

    proof fn lemma_cleared(
        self,
        needle: NeedleModel,
        input: Seq<u8>,
        m: SearchModel,
        handed: Seq<Handed>,
    )
        requires
            self.tracks(needle, input, m, handed),
        ensures
            self.tracks(needle, input, m.cleared(), handed),
    {
        assert((|hit: ByteMatch| proper(m.cleared().core, hit)) =~= (|hit: ByteMatch|
            proper(m.core, hit)));
    }

    proof fn lemma_stepped(
        self,
        needle: NeedleModel,
        input: Seq<u8>,
        m: SearchModel,
        end: SearchModel,
    )
        requires
            self.accounts(needle, input, m),
            input.len() <= u64::MAX,
            matcher_ok(self.search),
            self.stepped(needle, input, m, end),
        ensures
            self.accounts(needle, input, end),
    {
        let (step, active, replies, said) = choose|
            step: StreamReadStep,
            active: QueryGeneration,
            replies: spec_fn(usize, StreamReply) -> bool,
            said: Result<StreamReadState, StreamReadError>,
        |
            gives(input, m.core.stats.bytes_read as int, replies) && said is Ok && #[trigger] steps(
                m,
                needle,
                step,
                active,
                replies,
                self.detect,
                self.check,
                self.search,
                self.canceled,
                end,
                said,
            );
        if !(end.core.state is Canceled) {
            if m.core.state is Pending {
                let handed = choose|handed: Seq<Handed>| #[trigger]
                    self.tracks(needle, input, m, handed);
                self.lemma_cleared(needle, input, m, handed);
                if end != m.cleared() {
                    self.lemma_worked(
                        needle,
                        input,
                        m.cleared(),
                        handed,
                        step,
                        replies,
                        end,
                        said,
                    );
                }
            } else if exists|handed: Seq<Handed>| #[trigger]
                self.tracks(needle, input, m, handed) {
                let handed = choose|handed: Seq<Handed>| #[trigger]
                    self.tracks(needle, input, m, handed);
                self.lemma_cleared(needle, input, m, handed);
            }
        }
    }

    proof fn lemma_begun(self, needle: NeedleModel, input: Seq<u8>, m: SearchModel)
        requires
            self.begun(needle, input, m),
            input.len() <= u64::MAX,
        ensures
            self.accounts(needle, input, m),
    {
        let (request, options) = choose|request: CaptureRequest, options: StreamReadOptions|
            #[trigger] starts(
                Ok::<SearchModel, StreamReadError>(m),
                fresh_search(request, input.len() as u64, needle, options),
                self.detect,
                self.check,
            ) && options.max_matches <= 4096;
        let fresh = fresh_search(request, input.len() as u64, needle, options);
        let none = Seq::<Handed>::empty();
        reveal(Seq::filter);
        assert(reported(none) =~= Seq::<ByteMatch>::empty());
        assert(fresh.buffer =~= input.subrange(0, 0));
        assert(self.tracks(needle, input, fresh, none));
        if fresh.core.length == 0 {
            let (framed, ok) = choose|framed: SearchModel, ok: Result<(), StreamReadError>|
                #[trigger] prepares(fresh, self.detect, self.check, framed, ok) && match ok {
                    Ok(_) => m == framed.terminal(),
                    Err(e) => false,
                };
            self.lemma_prepares(needle, input, fresh, none, framed, ok);
            if framed.core.state is Pending {
                assert((|hit: ByteMatch| proper(m.core, hit)) =~= (|hit: ByteMatch|
                    proper(framed.core, hit)));
                assert(self.tracks(needle, input, m, none));
            }
        }
    }

    proof fn lemma_pursued(
        self,
        needle: NeedleModel,
        input: Seq<u8>,
        states: Seq<SearchModel>,
        n: int,
    )
        requires
            self.pursues(needle, input, states),
            input.len() <= u64::MAX,
            matcher_ok(self.search),
            0 <= n < states.len(),
        ensures
            self.accounts(needle, input, states[n]),
        decreases n,
    {
        if n == 0 {
            self.lemma_begun(needle, input, states[0]);
        } else {
            self.lemma_pursued(needle, input, states, n - 1);
            assert(self.stepped(needle, input, states[n - 1], states[n - 1 + 1]));
            self.lemma_stepped(needle, input, states[n - 1], states[n]);
        }
    }

    /// A search that came to the end of its input has handed every byte of it to the
    /// matcher, once and in order, with the literal for the text's encoding, and holds
    /// exactly the proper occurrences that the matcher reported, numbered in order.
    pub proof fn complete_searches_keep_all_that_is_reported(
        self,
        needle: NeedleModel,
        input: Seq<u8>,
        m: SearchModel,
    )
        requires
            self.reaches(needle, input, m),
            input.len() <= u64::MAX,
            matcher_ok(self.search),
            m.core.state is Complete,
        ensures
            exists|handed: Seq<Handed>|
                {
                    let kept = #[trigger] proper_ones(m.core, reported(handed));
                    &&& seamless(handed)
                    &&& behind(handed) == input.len()
                    &&& forall|i: int|
                        0 <= i < handed.len() ==> self.answered(
                            literal_for(needle, m.core.encoding),
                            input,
                            #[trigger] handed[i],
                        )
                    &&& m.hits.len() == kept.len()
                    &&& m.core.matches_seen == kept.len()
                    &&& forall|k: int|
                        0 <= k < kept.len() ==> stands_for(#[trigger] m.hits[k], kept[k], k + 1)
                },
    {
        let states = choose|states: Seq<SearchModel>|
            #[trigger] self.pursues(needle, input, states) && states.last() == m;
        self.lemma_pursued(needle, input, states, states.len() - 1);
        let handed = choose|handed: Seq<Handed>| #[trigger] self.tracks(needle, input, m, handed);
        let kept = proper_ones(m.core, reported(handed));
        assert(kept.len() == m.hits.len());
    }

    /// A search that was cut off at its limit holds the first occurrences, as many as
    /// the limit allows, and there was at least one more. One that met what is no text
    /// holds none.
    pub proof fn cut_searches_keep_the_first(
        self,
        needle: NeedleModel,
        input: Seq<u8>,
        m: SearchModel,
    )
        requires
            self.reaches(needle, input, m),
            input.len() <= u64::MAX,
            matcher_ok(self.search),
        ensures
            m.core.state is UnsupportedText ==> m.hits.len() == 0 && m.core.matches_seen == 0,
            m.core.state is Truncated ==> m.hits.len() == m.core.options.max_matches && exists|
                handed: Seq<Handed>,
            |
                {
                    let kept = #[trigger] proper_ones(m.core, reported(handed));
                    &&& seamless(handed)
                    &&& kept.len() > m.hits.len()
                    &&& forall|i: int|
                        0 <= i < handed.len() ==> self.answered(
                            literal_for(needle, m.core.encoding),
                            input,
                            #[trigger] handed[i],
                        )
                    &&& forall|k: int|
                        0 <= k < m.hits.len() ==> stands_for(#[trigger] m.hits[k], kept[k], k + 1)
                },
    {
        let states = choose|states: Seq<SearchModel>|
            #[trigger] self.pursues(needle, input, states) && states.last() == m;
        self.lemma_pursued(needle, input, states, states.len() - 1);
        if m.core.state is Truncated {
            let handed = choose|handed: Seq<Handed>| #[trigger]
                self.tracks(needle, input, m, handed);
            let kept = proper_ones(m.core, reported(handed));
            assert(kept.len() > m.hits.len());
        }
    }

    /// A search that holds hits has seen as many, and one that came to its end holds
    /// all that it has seen.
    pub proof fn hits_are_seen(self, needle: NeedleModel, input: Seq<u8>, m: SearchModel)
        requires
            self.reaches(needle, input, m),
            input.len() <= u64::MAX,
            matcher_ok(self.search),
            !(m.core.state is Canceled) && !(m.core.state is Failed),
        ensures
            m.core.matches_seen >= m.hits.len(),
            m.core.state is Complete ==> m.core.matches_seen == m.hits.len(),
            forall|k: int| 0 <= k < m.hits.len() ==> (#[trigger] m.hits[k]).occurrence == k + 1,
    {
        let states = choose|states: Seq<SearchModel>|
            #[trigger] self.pursues(needle, input, states) && states.last() == m;
        self.lemma_pursued(needle, input, states, states.len() - 1);
    }

    /// A search that has just begun may come to itself, and what a step makes of
    /// what it may come to, it may come to.
    pub proof fn lemma_reaches(
        self,
        needle: NeedleModel,
        input: Seq<u8>,
        m: SearchModel,
        end: SearchModel,
    )
        ensures
            self.begun(needle, input, m) ==> self.reaches(needle, input, m),
            self.reaches(needle, input, m) && self.stepped(needle, input, m, end) ==> self.reaches(
                needle,
                input,
                end,
            ),
    {
        if self.begun(needle, input, m) {
            assert(self.pursues(needle, input, seq![m]));
            assert(seq![m].last() == m);
        }
        if self.reaches(needle, input, m) && self.stepped(needle, input, m, end) {
            let states = choose|states: Seq<SearchModel>|
                #[trigger] self.pursues(needle, input, states) && states.last() == m;
            let more = states.push(end);
            assert forall|i: int| 0 <= i < more.len() - 1 implies self.stepped(
                needle,
                input,
                #[trigger] more[i],
                more[i + 1],
            ) by {
                if i < states.len() - 1 {
                    assert(self.stepped(needle, input, states[i], states[i + 1]));
                }
            }
            assert(self.pursues(needle, input, more));
            assert(more.last() == end);
        }
    }
}

} // verus!
