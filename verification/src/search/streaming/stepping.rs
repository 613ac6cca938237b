//! How a streaming search goes on.
//!
//! A step admits at most one successful read and one batch of the matcher.
//! Interrupted reads spend the budget of calls.
use vstd::prelude::*;

use crate::envelope::put_raw;
use crate::identity::{ByteRange, QueryGeneration};
use crate::search::source::{SourceEncoding, SourceError, StreamError};
use crate::search::streaming::{
    complete_len, complete_prefix, mark_len, mark_length, ByteBatch, ByteMatch, NeedleModel,
    ReaderSearch, SearchModel, StreamCore, StreamReadError, StreamReadState, StreamReadStats,
    StreamReadStep, StreamReply, StreamingHit, MAX_STREAM_RESULTS, MAX_STREAM_STEP_CALLS,
    MAX_STREAM_STEP_HITS, STREAM_BUFFER_BYTES,
};

verus! {

/// The smaller of two.
pub open spec fn least(a: int, b: int) -> int {
    if a < b {
        a
    } else {
        b
    }
}

/// The smaller of two sizes.
pub open spec fn at_most(a: usize, b: usize) -> usize {
    if a < b {
        a
    } else {
        b
    }
}

fn fewer(a: usize, b: usize) -> (r: usize)
    ensures
        r == least(a as int, b as int),
        r == at_most(a, b),
{
    if a < b {
        a
    } else {
        b
    }
}

/// The whole of `n`, at most one buffer.
fn within_buffer(n: u64) -> (r: usize)
    ensures
        r == least(n as int, STREAM_BUFFER_BYTES as int),
{
    if n < STREAM_BUFFER_BYTES as u64 {
        n as usize
    } else {
        STREAM_BUFFER_BYTES
    }
}

impl StreamCore {
    /// The same search, however far it has got.
    pub open spec fn same_job(self, other: StreamCore) -> bool {
        self.request == other.request && self.length == other.length && self.options
            == other.options && self.text == other.text
    }
}

impl SearchModel {
    pub open spec fn wf(self) -> bool {
        &&& self.core.consumed <= self.core.ready <= self.buffer.len() <= STREAM_BUFFER_BYTES
        &&& self.hits.len() <= self.core.options.max_matches <= MAX_STREAM_RESULTS
        &&& self.core.stats.bytes_read <= self.core.length
        &&& self.core.stats.read_calls <= self.core.options.max_read_calls
        &&& self.core.stats.interrupted_calls <= self.core.stats.read_calls
        &&& self.core.ready > 0 ==> self.core.started
        &&& !self.core.text ==> self.core.started
        &&& self.core.started && self.core.text ==> self.core.encoding is Some
        &&& forall|i: int| 0 <= i < self.hits.len() ==> (#[trigger] self.hits[i]).range.ordered()
    }

    pub open spec fn with_state(self, state: StreamReadState) -> SearchModel {
        SearchModel { core: StreamCore { state, ..self.core }, ..self }
    }

    /// Whether a step reads at all.
    pub open spec fn may_read(self) -> bool {
        &&& self.core.ready == 0
        &&& !self.core.eof
        &&& self.core.stats.bytes_read < self.core.length
        &&& self.core.stats.bytes_read < self.core.options.max_bytes
        &&& self.core.stats.read_calls < self.core.options.max_read_calls
    }

    /// How many bytes a step asks for.
    pub open spec fn asks(self, step: StreamReadStep) -> int {
        let buffer = STREAM_BUFFER_BYTES as int;
        least(
            least(
                least(buffer - self.buffer.len(), step.max_bytes as int),
                least(self.core.length - self.core.stats.bytes_read, buffer),
            ),
            least(self.core.options.max_bytes - self.core.stats.bytes_read, buffer),
        )
    }

    /// After one more read.
    pub open spec fn called(self) -> SearchModel {
        SearchModel {
            core: StreamCore {
                stats: StreamReadStats {
                    last_step_calls: (self.core.stats.last_step_calls + 1) as usize,
                    read_calls: (self.core.stats.read_calls + 1) as u64,
                    ..self.core.stats
                },
                ..self.core
            },
            ..self
        }
    }

    pub open spec fn interrupted(self) -> SearchModel {
        SearchModel {
            core: StreamCore {
                stats: StreamReadStats {
                    interrupted_calls: (self.core.stats.interrupted_calls + 1) as u64,
                    ..self.core.stats
                },
                ..self.core
            },
            ..self
        }
    }

    pub open spec fn ended(self) -> SearchModel {
        SearchModel { core: StreamCore { eof: true, ..self.core }, ..self }
    }

    /// After bytes came in.
    pub open spec fn received(self, bytes: Seq<u8>) -> SearchModel {
        let filled = (self.buffer.len() + bytes.len()) as usize;
        SearchModel {
            core: StreamCore {
                stats: StreamReadStats {
                    bytes_read: (self.core.stats.bytes_read + bytes.len()) as u64,
                    last_step_read: bytes.len() as usize,
                    peak_buffer_bytes: if filled > self.core.stats.peak_buffer_bytes {
                        filled
                    } else {
                        self.core.stats.peak_buffer_bytes
                    },
                    ..self.core.stats
                },
                ..self.core
            },
            buffer: self.buffer + bytes,
            ..self
        }
    }
}

/// What the host may reply to a request for bytes.
pub open spec fn replies_of<R: FnMut(usize) -> StreamReply>(read: R) -> spec_fn(
    usize,
    StreamReply,
) -> bool {
    |count: usize, reply: StreamReply| call_ensures(read, (count,), reply)
}

/// Whether reading may end so: reads are repeated while they are interrupted,
/// within the budgets of calls.
pub open spec fn fills(
    m: SearchModel,
    count: usize,
    calls: int,
    replies: spec_fn(usize, StreamReply) -> bool,
    end: SearchModel,
    r: Result<(), StreamReadError>,
) -> bool
    decreases calls - m.core.stats.last_step_calls,
{
    if m.core.stats.last_step_calls >= calls || m.core.stats.last_step_calls >= usize::MAX
        || m.core.stats.read_calls >= m.core.options.max_read_calls {
        end == m && r is Ok
    } else {
        exists|reply: StreamReply|
            #[trigger] replies(count, reply) && match reply {
                StreamReply::Bytes(bytes) => if bytes@.len() == 0 {
                    end == m.called().ended() && r is Ok
                } else if bytes@.len() <= count {
                    end == m.called().received(bytes@) && r is Ok
                } else {
                    end == m.called() && r == Err::<(), StreamReadError>(
                        StreamReadError::InvalidReadCount,
                    )
                },
                StreamReply::Interrupted => fills(
                    m.called().interrupted(),
                    count,
                    calls,
                    replies,
                    end,
                    r,
                ),
                StreamReply::Failed => end == m.called() && r == Err::<(), StreamReadError>(
                    StreamReadError::Io,
                ),
            }
    }
}

/// Whether the first part of a step, reading, may end so.
pub open spec fn reads_on(
    m: SearchModel,
    step: StreamReadStep,
    replies: spec_fn(usize, StreamReply) -> bool,
    end: SearchModel,
    r: Result<(), StreamReadError>,
) -> bool {
    if m.may_read() {
        fills(
            m,
            m.asks(step) as usize,
            least(step.max_calls as int, MAX_STREAM_STEP_CALLS as int),
            replies,
            end,
            r,
        )
    } else {
        end == m && r is Ok
    }
}

/// Whether interrupted reads may lead from one state to another.
pub open spec fn interrupts(
    m: SearchModel,
    count: usize,
    calls: int,
    replies: spec_fn(usize, StreamReply) -> bool,
    end: SearchModel,
) -> bool
    decreases calls - m.core.stats.last_step_calls,
{
    ||| end == m
    ||| m.core.stats.last_step_calls < calls && m.core.stats.last_step_calls < usize::MAX
        && m.core.stats.read_calls < m.core.options.max_read_calls && replies(
        count,
        StreamReply::Interrupted,
    ) && interrupts(m.called().interrupted(), count, calls, replies, end)
}

/// Whether reading may get so far before it is told to stop.
pub open spec fn reads_until(
    m: SearchModel,
    step: StreamReadStep,
    replies: spec_fn(usize, StreamReply) -> bool,
    last: SearchModel,
) -> bool {
    m.may_read() && interrupts(
        m,
        m.asks(step) as usize,
        least(step.max_calls as int, MAX_STREAM_STEP_CALLS as int),
        replies,
        last,
    )
}

/// Whether reading may be stopped so.
pub open spec fn reading_stops(
    m: SearchModel,
    step: StreamReadStep,
    replies: spec_fn(usize, StreamReply) -> bool,
    end: SearchModel,
) -> bool {
    exists|last: SearchModel|
        #[trigger] reads_until(m, step, replies, last) && end == last.with_state(
            StreamReadState::Canceled,
        )
}

impl<'needle> ReaderSearch<'needle> {
    /// Reads once, and again while interrupted.
    fn fill<R: FnMut(usize) -> StreamReply, C: FnMut() -> bool>(
        &mut self,
        step: StreamReadStep,
        read: &mut R,
        canceled: &mut C,
    ) -> (r: Result<(), StreamReadError>)
        requires
            old(self)@.wf(),
            old(self)@.core.stats.last_step_calls == 0,
            old(self)@.core.state is Pending,
            forall|n: usize| call_requires(*old(read), (n,)),
            call_requires(*old(canceled), ()),
        ensures
            *final(read) == *old(read),
            *final(canceled) == *old(canceled),
            final(self)@.wf(),
            final(self).needle == old(self).needle,
            final(self)@.core.same_job(old(self)@.core),
            (r is Ok && call_ensures(*old(canceled), (), true) && reading_stops(
                old(self)@,
                step,
                replies_of(*old(read)),
                final(self)@,
            )) || (reads_on(
                old(self)@,
                step,
                replies_of(*old(read)),
                final(self)@,
                r,
            ) && final(self)@.core.state is Pending),
    {
        if self.core.ready != 0 || self.core.eof || self.core.stats.bytes_read >= self.core.length
            || self.core.stats.bytes_read >= self.core.options.max_bytes
            || self.core.stats.read_calls >= self.core.options.max_read_calls {
            return Ok(());
        }
        let room: usize = fewer(STREAM_BUFFER_BYTES - self.buffer.len(), step.max_bytes);
        let left: usize = within_buffer(self.core.length - self.core.stats.bytes_read);
        let allowed: usize = within_buffer(self.core.options.max_bytes - self.core.stats.bytes_read);
        let count: usize = fewer(fewer(room, left), allowed);
        let calls: usize = fewer(step.max_calls, MAX_STREAM_STEP_CALLS);
        let ghost start = self@;
        assert(count == start.asks(step));
        while self.core.stats.last_step_calls < calls && self.core.stats.read_calls
            < self.core.options.max_read_calls
            invariant
                self@.wf(),
                self@.core.state is Pending,
                self.needle == old(self).needle,
                self@.core.same_job(old(self)@.core),
                start == old(self)@,
                start.may_read(),
                count == start.asks(step),
                calls == least(step.max_calls as int, MAX_STREAM_STEP_CALLS as int),
                self@.buffer == start.buffer,
                self@.core.length == start.core.length,
                self@.core.options == start.core.options,
                self@.core.stats.bytes_read == start.core.stats.bytes_read,
                *read == *old(read),
                *canceled == *old(canceled),
                forall|n: usize| call_requires(*read, (n,)),
                call_requires(*canceled, ()),
                forall|end: SearchModel, r: Result<(), StreamReadError>|
                    #[trigger] fills(self@, count, calls as int, replies_of(*read), end, r) ==> fills(
                        start,
                        count,
                        calls as int,
                        replies_of(*read),
                        end,
                        r,
                    ),
                forall|end: SearchModel|
                    #[trigger] interrupts(self@, count, calls as int, replies_of(*read), end)
                        ==> interrupts(start, count, calls as int, replies_of(*read), end),
            decreases calls - self.core.stats.last_step_calls,
        {
            if canceled() {
                assert(interrupts(self@, count, calls as int, replies_of(*read), self@));
                assert(reads_until(start, step, replies_of(*read), self@));
                self.core.state = StreamReadState::Canceled;
                return Ok(());
            }
            let ghost before = self@;
            self.core.stats.last_step_calls = self.core.stats.last_step_calls + 1;
            self.core.stats.read_calls = self.core.stats.read_calls + 1;
            assert(self@ == before.called());
            let reply = read(count);
            assert(replies_of(*old(read))(count, reply));
            match reply {
                StreamReply::Bytes(bytes) => {
                    if bytes.len() == 0 {
                        self.core.eof = true;
                        assert(self@ == before.called().ended());
                        assert(fills(before, count, calls as int, replies_of(*read), self@, Ok(())));
                        return Ok(());
                    }
                    if bytes.len() > count {
                        assert(fills(
                            before,
                            count,
                            calls as int,
                            replies_of(*read),
                            self@,
                            Err(StreamReadError::InvalidReadCount),
                        ));
                        return Err(StreamReadError::InvalidReadCount);
                    }
                    put_raw(&mut self.buffer, bytes.as_slice());
                    self.core.stats.bytes_read = self.core.stats.bytes_read + bytes.len() as u64;
                    self.core.stats.last_step_read = bytes.len();
                    if self.buffer.len() > self.core.stats.peak_buffer_bytes {
                        self.core.stats.peak_buffer_bytes = self.buffer.len();
                    }
                    assert(self@ == before.called().received(bytes@));
                    assert(fills(before, count, calls as int, replies_of(*read), self@, Ok(())));
                    return Ok(());
                },
                StreamReply::Interrupted => {
                    self.core.stats.interrupted_calls = self.core.stats.interrupted_calls + 1;
                    assert(self@ == before.called().interrupted());
                    assert forall|end: SearchModel, r: Result<(), StreamReadError>|
                        #[trigger] fills(
                            self@,
                            count,
                            calls as int,
                            replies_of(*read),
                            end,
                            r,
                        ) implies fills(start, count, calls as int, replies_of(*read), end, r) by {
                        assert(fills(before, count, calls as int, replies_of(*read), end, r));
                    }
                    assert forall|end: SearchModel|
                        #[trigger] interrupts(
                            self@,
                            count,
                            calls as int,
                            replies_of(*read),
                            end,
                        ) implies interrupts(
                        start,
                        count,
                        calls as int,
                        replies_of(*read),
                        end,
                    ) by {
                        assert(interrupts(before, count, calls as int, replies_of(*read), end));
                    }
                },
                StreamReply::Failed => {
                    assert(fills(
                        before,
                        count,
                        calls as int,
                        replies_of(*read),
                        self@,
                        Err(StreamReadError::Io),
                    ));
                    return Err(StreamReadError::Io);
                },
            }
        }
        assert(fills(self@, count, calls as int, replies_of(*read), self@, Ok(())));
        Ok(())
    }
}

/// Whether the host may detect this encoding in bytes.
pub open spec fn detected<D: FnMut(&Vec<u8>) -> SourceEncoding>(
    detect: D,
    bytes: Seq<u8>,
    encoding: SourceEncoding,
) -> bool {
    exists|held: &Vec<u8>| held@ == bytes && #[trigger] call_ensures(detect, (held,), encoding)
}

/// Whether the host may say this of the validity of the first bytes.
pub open spec fn validated<
    V: FnMut(&Vec<u8>, usize, SourceEncoding, u64) -> Result<Option<u64>, SourceError>,
>(
    check: V,
    bytes: Seq<u8>,
    ready: usize,
    encoding: SourceEncoding,
    base: u64,
    answer: Result<Option<u64>, SourceError>,
) -> bool {
    exists|held: &Vec<u8>|
        held@ == bytes && #[trigger] call_ensures(check, (held, ready, encoding, base), answer)
}

/// Whether the host's matcher may say this of a stretch of bytes.
pub open spec fn matched<
    M: FnMut(&Vec<u8>, &Vec<u8>, usize, usize, usize, usize) -> Result<ByteBatch, StreamError>,
>(
    search: M,
    literal: Seq<u8>,
    bytes: Seq<u8>,
    from: usize,
    to: usize,
    max_bytes: usize,
    max_hits: usize,
    answer: Result<ByteBatch, StreamError>,
) -> bool {
    exists|wanted: &Vec<u8>, held: &Vec<u8>|
        wanted@ == literal && held@ == bytes && #[trigger] call_ensures(
            search,
            (wanted, held, from, to, max_bytes, max_hits),
            answer,
        )
}

impl SearchModel {
    /// Whether no more input will come.
    pub open spec fn final_input(self) -> bool {
        self.core.eof || self.core.stats.bytes_read == self.core.length
    }

    /// Whether the encoding must be known first: a mark is not guessed from
    /// fewer bytes than it may have.
    pub open spec fn waits(self) -> bool {
        !self.core.started && self.buffer.len() < 3 && !self.final_input()
    }

    /// After the matcher got its literal.
    pub open spec fn begun(self, encoding: SourceEncoding) -> SearchModel {
        SearchModel {
            core: StreamCore {
                encoding: Some(encoding),
                header: mark_len(self.buffer, encoding),
                started: true,
                ..self.core
            },
            ..self
        }
    }

    /// After the complete characters were marked off.
    pub open spec fn framed(self) -> SearchModel {
        SearchModel {
            core: StreamCore {
                ready: if !self.core.text || self.final_input() {
                    self.buffer.len() as usize
                } else {
                    complete_len(self.buffer, self.core.encoding->0) as usize
                },
                ..self.core
            },
            ..self
        }
    }

    /// After a byte that is no text: everything found so far is withdrawn.
    pub open spec fn unsupported(self, at: u64) -> SearchModel {
        SearchModel {
            core: StreamCore {
                unsupported_at: Some(at),
                matches_seen: 0,
                state: StreamReadState::UnsupportedText,
                ..self.core
            },
            hits: Seq::empty(),
            ..self
        }
    }

    /// Whether an occurrence counts: in text, not within the mark and not
    /// between units.
    pub open spec fn counts(self, hit: ByteMatch) -> bool {
        !(self.core.text && (hit.start < self.core.header || (self.core.encoding matches Some(
            encoding,
        ) && encoding.wide() && hit.start % 2 != 0)))
    }

    /// After the occurrences from the `i`th on were taken.
    pub open spec fn taken(self, found: Seq<ByteMatch>, i: int) -> (
        SearchModel,
        Result<(), StreamReadError>,
    )
        decreases found.len() - i,
    {
        if i < 0 || i >= found.len() {
            (self, Ok(()))
        } else if !self.counts(found[i]) {
            self.taken(found, i + 1)
        } else {
            let seen = self.core.matches_seen.wrapping_add(1);
            let counted = SearchModel {
                core: StreamCore { matches_seen: seen, ..self.core },
                ..self
            };
            if self.hits.len() >= self.core.options.max_matches {
                (counted.with_state(StreamReadState::Truncated), Ok(()))
            } else if found[i].start > found[i].end {
                (counted, Err(StreamReadError::InvalidRange))
            } else {
                SearchModel {
                    hits: counted.hits.push(
                        StreamingHit {
                            occurrence: seen,
                            range: ByteRange { start: found[i].start, end: found[i].end },
                        },
                    ),
                    ..counted
                }.taken(found, i + 1)
            }
        }
    }

    /// After the matcher took some of the bytes.
    pub open spec fn passed(self, consumed: usize, scanned: u64) -> SearchModel {
        SearchModel {
            core: StreamCore {
                consumed: (self.core.consumed + consumed) as usize,
                stats: StreamReadStats {
                    scanned_bytes: scanned,
                    last_step_scanned: consumed,
                    ..self.core.stats
                },
                ..self.core
            },
            ..self
        }
    }

    /// Bytes that are done with are dropped.
    pub open spec fn shifted(self) -> SearchModel {
        if self.core.consumed == self.core.ready {
            SearchModel {
                core: StreamCore {
                    base: self.core.base.wrapping_add(self.core.ready as u64),
                    ready: 0,
                    consumed: 0,
                    ..self.core
                },
                buffer: self.buffer.subrange(self.core.ready as int, self.buffer.len() as int),
                ..self
            }
        } else {
            self
        }
    }

    /// After a batch of the matcher.
    pub open spec fn absorbed(self, consumed: usize, scanned: u64, found: Seq<ByteMatch>) -> (
        SearchModel,
        Result<(), StreamReadError>,
    ) {
        let (end, r) = self.passed(consumed, scanned).taken(found, 0);
        if r is Err {
            (end, r)
        } else {
            (end.shifted(), r)
        }
    }

    /// The state that the end of the input or a limit gives.
    pub open spec fn terminal(self) -> SearchModel {
        if !(self.core.state is Pending) || self.core.ready > 0 {
            self
        } else if self.buffer.len() == 0 && self.core.stats.bytes_read == self.core.length {
            self.with_state(StreamReadState::Complete)
        } else if self.core.eof && self.buffer.len() == 0 {
            self.with_state(StreamReadState::ShortRead)
        } else if self.core.stats.bytes_read >= self.core.options.max_bytes {
            self.with_state(StreamReadState::ByteLimit)
        } else if self.core.stats.read_calls >= self.core.options.max_read_calls {
            self.with_state(StreamReadState::CallLimit)
        } else {
            self
        }
    }
}

/// Whether the literal may be chosen so.
pub open spec fn begins<D: FnMut(&Vec<u8>) -> SourceEncoding>(
    m: SearchModel,
    detect: D,
    end: SearchModel,
) -> bool {
    if m.core.started {
        end == m
    } else {
        match m.core.encoding {
            Some(encoding) => end == m.begun(encoding),
            None => exists|encoding: SourceEncoding|
                #[trigger] detected(detect, m.buffer, encoding) && end == m.begun(encoding),
        }
    }
}

/// Whether complete characters may be marked off and validated so.
pub open spec fn frames<
    V: FnMut(&Vec<u8>, usize, SourceEncoding, u64) -> Result<Option<u64>, SourceError>,
>(
    m: SearchModel,
    check: V,
    end: SearchModel,
    r: Result<(), StreamReadError>,
) -> bool {
    let ready = m.framed();
    &&& ready.core.ready <= ready.buffer.len()
    &&& if ready.core.text && ready.core.ready > 0 {
        exists|answer: Result<Option<u64>, SourceError>|
            #[trigger] validated(
                check,
                ready.buffer,
                ready.core.ready,
                ready.core.encoding->0,
                ready.core.base,
                answer,
            ) && match answer {
                Err(e) => end == ready && r == Err::<(), StreamReadError>(
                    StreamReadError::Decoder(e),
                ),
                Ok(None) => end == ready && r is Ok,
                Ok(Some(at)) => end == ready.unsupported(at) && r is Ok,
            }
    } else {
        end == ready && r is Ok
    }
}

/// Whether the second part of a step, framing, may end so.
pub open spec fn prepares<
    D: FnMut(&Vec<u8>) -> SourceEncoding,
    V: FnMut(&Vec<u8>, usize, SourceEncoding, u64) -> Result<Option<u64>, SourceError>,
>(
    m: SearchModel,
    detect: D,
    check: V,
    end: SearchModel,
    r: Result<(), StreamReadError>,
) -> bool {
    if m.waits() {
        end == m && r is Ok
    } else {
        exists|middle: SearchModel|
            #[trigger] begins(m, detect, middle) && frames(middle, check, end, r)
    }
}

/// Whether the third part of a step, matching, may end so.
pub open spec fn matches_on<
    M: FnMut(&Vec<u8>, &Vec<u8>, usize, usize, usize, usize) -> Result<ByteBatch, StreamError>,
>(
    m: SearchModel,
    needle: NeedleModel,
    step: StreamReadStep,
    search: M,
    end: SearchModel,
    r: Result<(), StreamReadError>,
) -> bool {
    if m.core.ready > m.core.consumed {
        exists|answer: Result<ByteBatch, StreamError>|
            #[trigger] matched(
                search,
                needle.in_encoding(m.core.encoding),
                m.buffer,
                m.core.consumed,
                m.core.ready,
                at_most(step.max_bytes, STREAM_BUFFER_BYTES),
                at_most(step.max_hits, MAX_STREAM_STEP_HITS),
                answer,
            ) && match answer {
                Err(e) => end == m && r == Err::<(), StreamReadError>(StreamReadError::Matcher(e)),
                Ok(batch) => {
                    let (after, ok) = m.absorbed(batch.consumed, batch.scanned, batch.hits@);
                    if ok is Err {
                        end == after && r == ok
                    } else {
                        end == after.terminal() && r is Ok
                    }
                },
            }
    } else {
        end == m.terminal() && r is Ok
    }
}

impl<'needle> ReaderSearch<'needle> {
    /// Marks off the complete characters, and validates text.
    pub(crate) fn prepare<
        D: FnMut(&Vec<u8>) -> SourceEncoding,
        V: FnMut(&Vec<u8>, usize, SourceEncoding, u64) -> Result<Option<u64>, SourceError>,
    >(&mut self, detect: &mut D, check: &mut V) -> (r: Result<(), StreamReadError>)
        requires
            old(self)@.wf(),
            old(self)@.core.ready == 0,
            forall|bytes: &Vec<u8>| call_requires(*old(detect), (bytes,)),
            forall|bytes: &Vec<u8>, n: usize, e: SourceEncoding, base: u64|
                call_requires(*old(check), (bytes, n, e, base)),
        ensures
            *final(detect) == *old(detect),
            *final(check) == *old(check),
            final(self)@.wf(),
            final(self).needle == old(self).needle,
            final(self)@.core.same_job(old(self)@.core),
            prepares(old(self)@, *old(detect), *old(check), final(self)@, r),
    {
        let ghost start = self@;
        let last = self.core.eof || self.core.stats.bytes_read == self.core.length;
        if !self.core.started {
            if self.buffer.len() < 3 && !last {
                return Ok(());
            }
            let encoding = match self.core.encoding {
                Some(encoding) => encoding,
                None => {
                    let encoding = detect(&self.buffer);
                    assert(call_ensures(*old(detect), (&self.buffer,), encoding));
                    assert(detected(*old(detect), start.buffer, encoding));
                    encoding
                },
            };
            self.core.encoding = Some(encoding);
            self.core.header = mark_length(&self.buffer, encoding);
            self.core.started = true;
        }
        let ghost middle = self@;
        assert(begins(start, *old(detect), middle));
        self.core.ready = if !self.core.text || last {
            self.buffer.len()
        } else {
            match self.core.encoding {
                Some(encoding) => complete_prefix(&self.buffer, encoding),
                None => 0,
            }
        };
        assert(self@ == middle.framed());
        if self.core.text && self.core.ready > 0 {
            if let Some(encoding) = self.core.encoding {
                let answer = check(&self.buffer, self.core.ready, encoding, self.core.base);
                assert(call_ensures(
                    *old(check),
                    (&self.buffer, self.core.ready, encoding, self.core.base),
                    answer,
                ));
                assert(validated(
                    *old(check),
                    self@.buffer,
                    self@.core.ready,
                    encoding,
                    self@.core.base,
                    answer,
                ));
                match answer {
                    Err(e) => {
                        return Err(StreamReadError::Decoder(e));
                    },
                    Ok(None) => {},
                    Ok(Some(at)) => {
                        let ghost ready = self@;
                        self.core.unsupported_at = Some(at);
                        self.core.matches_seen = 0;
                        self.core.state = StreamReadState::UnsupportedText;
                        self.hits = Vec::new();
                        assert(self@.hits =~= Seq::empty());
                        assert(self@ == ready.unsupported(at));
                    },
                }
            }
        }
        Ok(())
    }

    /// Takes the occurrences of a batch, as many as the limit allows.
    fn take_hits(&mut self, found: &Vec<ByteMatch>) -> (r: Result<(), StreamReadError>)
        requires
            old(self)@.wf(),
        ensures
            final(self)@.wf(),
            final(self).needle == old(self).needle,
            final(self)@.core.same_job(old(self)@.core),
            (final(self)@, r) == old(self)@.taken(found@, 0),
    {
        let mut i: usize = 0;
        while i < found.len()
            invariant
                i <= found@.len(),
                self@.wf(),
                self.needle == old(self).needle,
                self@.core.same_job(old(self)@.core),
                self@.taken(found@, i as int) == old(self)@.taken(found@, 0),
            decreases found.len() - i,
        {
            let hit = found[i];
            let wide = match self.core.encoding {
                Some(encoding) => encoding.is_wide(),
                None => false,
            };
            let ghost before = self@;
            if !(self.core.text && (hit.start < self.core.header || (wide && hit.start % 2 != 0))) {
                self.core.matches_seen = self.core.matches_seen.wrapping_add(1);
                if self.hits.len() >= self.core.options.max_matches {
                    self.core.state = StreamReadState::Truncated;
                    return Ok(());
                }
                if hit.start > hit.end {
                    return Err(StreamReadError::InvalidRange);
                }
                self.hits.push(
                    StreamingHit {
                        occurrence: self.core.matches_seen,
                        range: ByteRange { start: hit.start, end: hit.end },
                    },
                );
            }
            i = i + 1;
        }
        Ok(())
    }

    /// Takes a batch of the host's matcher.
    pub fn absorb(&mut self, batch: &ByteBatch) -> (r: Result<(), StreamReadError>)
        requires
            old(self)@.wf(),
            batch.consumed <= old(self)@.core.ready - old(self)@.core.consumed,
        ensures
            final(self)@.wf(),
            final(self).needle == old(self).needle,
            final(self)@.core.same_job(old(self)@.core),
            (final(self)@, r) == old(self)@.absorbed(batch.consumed, batch.scanned, batch.hits@),
    {
        self.core.consumed = self.core.consumed + batch.consumed;
        self.core.stats.scanned_bytes = batch.scanned;
        self.core.stats.last_step_scanned = batch.consumed;
        proof {
            lemma_taken(self@, batch.hits@, 0);
        }
        let taken = self.take_hits(&batch.hits);
        if taken.is_err() {
            return taken;
        }
        let ghost kept = self@;
        if self.core.consumed == self.core.ready {
            let n: usize = self.buffer.len();
            self.buffer = crate::text::bytes_of(&self.buffer, self.core.ready, n);
            self.core.base = self.core.base.wrapping_add(self.core.ready as u64);
            self.core.ready = 0;
            self.core.consumed = 0;
        }
        assert(self@ == kept.shifted());
        taken
    }

    /// Sets the state that the end of the input or a limit gives.
    pub fn set_terminal(&mut self)
        ensures
            final(self)@ == old(self)@.terminal(),
            final(self).needle == old(self).needle,
            final(self)@.core.same_job(old(self)@.core),
    {
        match self.core.state {
            StreamReadState::Pending => {},
            _ => {
                return;
            },
        }
        if self.core.ready > 0 {
            return;
        }
        if self.buffer.len() == 0 && self.core.stats.bytes_read == self.core.length {
            self.core.state = StreamReadState::Complete;
        } else if self.core.eof && self.buffer.len() == 0 {
            self.core.state = StreamReadState::ShortRead;
        } else if self.core.stats.bytes_read >= self.core.options.max_bytes {
            self.core.state = StreamReadState::ByteLimit;
        } else if self.core.stats.read_calls >= self.core.options.max_read_calls {
            self.core.state = StreamReadState::CallLimit;
        }
    }
}

/// Taking occurrences touches neither the bytes nor the positions in them.
proof fn lemma_taken(m: SearchModel, found: Seq<ByteMatch>, i: int)
    ensures
        ({
            let end = m.taken(found, i).0;
            &&& end.buffer == m.buffer
            &&& end.core == (StreamCore {
                matches_seen: end.core.matches_seen,
                state: end.core.state,
                ..m.core
            })
        }),
    decreases found.len() - i,
{
    if 0 <= i < found.len() {
        if !m.counts(found[i]) {
            lemma_taken(m, found, i + 1);
        } else if m.hits.len() < m.core.options.max_matches && found[i].start <= found[i].end {
            let seen = m.core.matches_seen.wrapping_add(1);
            let next = SearchModel {
                core: StreamCore { matches_seen: seen, ..m.core },
                hits: m.hits.push(
                    StreamingHit {
                        occurrence: seen,
                        range: ByteRange { start: found[i].start, end: found[i].end },
                    },
                ),
                ..m
            };
            lemma_taken(next, found, i + 1);
        }
    }
}

/// What is asked of the host's matcher: it may be given any stretch of bytes, and
/// takes no more than it was given.
pub open spec fn matcher_ok<
    M: FnMut(&Vec<u8>, &Vec<u8>, usize, usize, usize, usize) -> Result<ByteBatch, StreamError>,
>(search: M) -> bool {
    &&& forall|wanted: &Vec<u8>, held: &Vec<u8>, from: usize, to: usize, bytes: usize, hits: usize|
        from <= to <= held@.len() ==> call_requires(search, (wanted, held, from, to, bytes, hits))
    &&& forall|
        wanted: &Vec<u8>,
        held: &Vec<u8>,
        from: usize,
        to: usize,
        bytes: usize,
        hits: usize,
        answer: Result<ByteBatch, StreamError>,
    | #[trigger]
        call_ensures(search, (wanted, held, from, to, bytes, hits), answer) ==> (
        answer matches Ok(batch) ==> batch.consumed <= to - from)
}

/// Whether the work of a step may end so: reading, framing, matching.
pub open spec fn advances<
    D: FnMut(&Vec<u8>) -> SourceEncoding,
    V: FnMut(&Vec<u8>, usize, SourceEncoding, u64) -> Result<Option<u64>, SourceError>,
    M: FnMut(&Vec<u8>, &Vec<u8>, usize, usize, usize, usize) -> Result<ByteBatch, StreamError>,
>(
    m: SearchModel,
    needle: NeedleModel,
    step: StreamReadStep,
    replies: spec_fn(usize, StreamReply) -> bool,
    detect: D,
    check: V,
    search: M,
    end: SearchModel,
    r: Result<(), StreamReadError>,
) -> bool {
    ||| r is Err && reads_on(m, step, replies, end, r)
    ||| exists|got: SearchModel, ok: Result<(), StreamReadError>|
        ok is Ok && #[trigger] reads_on(m, step, replies, got, ok) && goes_on(
            got,
            needle,
            step,
            detect,
            check,
            search,
            end,
            r,
        )
}

/// Whether a step may go on so once it has read.
pub open spec fn goes_on<
    D: FnMut(&Vec<u8>) -> SourceEncoding,
    V: FnMut(&Vec<u8>, usize, SourceEncoding, u64) -> Result<Option<u64>, SourceError>,
    M: FnMut(&Vec<u8>, &Vec<u8>, usize, usize, usize, usize) -> Result<ByteBatch, StreamError>,
>(
    m: SearchModel,
    needle: NeedleModel,
    step: StreamReadStep,
    detect: D,
    check: V,
    search: M,
    end: SearchModel,
    r: Result<(), StreamReadError>,
) -> bool {
    if m.core.ready > 0 {
        matches_on(m, needle, step, search, end, r)
    } else {
        ||| r is Err && prepares(m, detect, check, end, r)
        ||| exists|framed: SearchModel, ok: Result<(), StreamReadError>|
            ok is Ok && #[trigger] prepares(m, detect, check, framed, ok) && if framed.core.state
                is Pending {
                matches_on(framed, needle, step, search, end, r)
            } else {
                end == framed && r is Ok
            }
    }
}

/// Whether a step may get so far before it is told to stop: nowhere, through some
/// interrupted reads, through the reading, or through all of its work.
pub open spec fn gets_to<
    D: FnMut(&Vec<u8>) -> SourceEncoding,
    V: FnMut(&Vec<u8>, usize, SourceEncoding, u64) -> Result<Option<u64>, SourceError>,
    M: FnMut(&Vec<u8>, &Vec<u8>, usize, usize, usize, usize) -> Result<ByteBatch, StreamError>,
>(
    m: SearchModel,
    needle: NeedleModel,
    step: StreamReadStep,
    replies: spec_fn(usize, StreamReply) -> bool,
    detect: D,
    check: V,
    search: M,
    last: SearchModel,
) -> bool {
    ||| last == m
    ||| m.core.state is Pending && step.max_bytes > 0 && step.max_hits > 0 && {
        ||| reads_until(m, step, replies, last)
        ||| reads_on(m, step, replies, last, Ok(()))
        ||| advances(m, needle, step, replies, detect, check, search, last, Ok(()))
    }
}

/// Whether a step may be stopped so.
pub open spec fn stops<
    D: FnMut(&Vec<u8>) -> SourceEncoding,
    V: FnMut(&Vec<u8>, usize, SourceEncoding, u64) -> Result<Option<u64>, SourceError>,
    M: FnMut(&Vec<u8>, &Vec<u8>, usize, usize, usize, usize) -> Result<ByteBatch, StreamError>,
>(
    m: SearchModel,
    needle: NeedleModel,
    step: StreamReadStep,
    replies: spec_fn(usize, StreamReply) -> bool,
    detect: D,
    check: V,
    search: M,
    end: SearchModel,
) -> bool {
    exists|last: SearchModel|
        #[trigger] gets_to(m, needle, step, replies, detect, check, search, last) && end
            == last.with_state(StreamReadState::Canceled)
}

impl<'needle> ReaderSearch<'needle> {
    /// Hands the bytes at hand to the matcher.
    fn hand_over<
        M: FnMut(&Vec<u8>, &Vec<u8>, usize, usize, usize, usize) -> Result<ByteBatch, StreamError>,
    >(&mut self, step: StreamReadStep, search: &mut M) -> (r: Result<(), StreamReadError>)
        requires
            old(self)@.wf(),
            matcher_ok(*old(search)),
        ensures
            *final(search) == *old(search),
            final(self)@.wf(),
            final(self).needle == old(self).needle,
            final(self)@.core.same_job(old(self)@.core),
            matches_on(old(self)@, old(self).needle@, step, *old(search), final(self)@, r),
    {
        let ghost start = self@;
        if self.core.ready > self.core.consumed {
            let bytes: usize = fewer(step.max_bytes, STREAM_BUFFER_BYTES);
            let hits: usize = fewer(step.max_hits, MAX_STREAM_STEP_HITS);
            let literal = self.needle.encoded(self.core.encoding);
            let answer = search(
                literal,
                &self.buffer,
                self.core.consumed,
                self.core.ready,
                bytes,
                hits,
            );
            assert(call_ensures(
                *old(search),
                (literal, &self.buffer, self.core.consumed, self.core.ready, bytes, hits),
                answer,
            ));
            assert(matched(
                *old(search),
                self.needle@.in_encoding(start.core.encoding),
                start.buffer,
                start.core.consumed,
                start.core.ready,
                bytes,
                hits,
                answer,
            ));
            match answer {
                Err(e) => {
                    return Err(StreamReadError::Matcher(e));
                },
                Ok(batch) => {
                    let absorbed = self.absorb(&batch);
                    if absorbed.is_err() {
                        return absorbed;
                    }
                },
            }
        }
        self.set_terminal();
        Ok(())
    }

    fn advance<
        R: FnMut(usize) -> StreamReply,
        D: FnMut(&Vec<u8>) -> SourceEncoding,
        V: FnMut(&Vec<u8>, usize, SourceEncoding, u64) -> Result<Option<u64>, SourceError>,
        M: FnMut(&Vec<u8>, &Vec<u8>, usize, usize, usize, usize) -> Result<ByteBatch, StreamError>,
        C: FnMut() -> bool,
    >(
        &mut self,
        step: StreamReadStep,
        read: &mut R,
        detect: &mut D,
        check: &mut V,
        search: &mut M,
        canceled: &mut C,
    ) -> (r: Result<(), StreamReadError>)
        requires
            old(self)@.wf(),
            old(self)@.core.stats.last_step_calls == 0,
            old(self)@.core.state is Pending,
            step.max_bytes > 0,
            step.max_hits > 0,
            forall|n: usize| call_requires(*old(read), (n,)),
            forall|bytes: &Vec<u8>| call_requires(*old(detect), (bytes,)),
            forall|bytes: &Vec<u8>, n: usize, e: SourceEncoding, base: u64|
                call_requires(*old(check), (bytes, n, e, base)),
            matcher_ok(*old(search)),
            call_requires(*old(canceled), ()),
        ensures
            *final(read) == *old(read),
            *final(detect) == *old(detect),
            *final(check) == *old(check),
            *final(search) == *old(search),
            *final(canceled) == *old(canceled),
            final(self)@.wf(),
            final(self).needle == old(self).needle,
            final(self)@.core.same_job(old(self)@.core),
            (r is Ok && call_ensures(*old(canceled), (), true) && stops(
                old(self)@,
                old(self).needle@,
                step,
                replies_of(*old(read)),
                *old(detect),
                *old(check),
                *old(search),
                final(self)@,
            )) || advances(
                old(self)@,
                old(self).needle@,
                step,
                replies_of(*old(read)),
                *old(detect),
                *old(check),
                *old(search),
                final(self)@,
                r,
            ),
    {
        let ghost start = self@;
        let filled = self.fill(step, read, canceled);
        if filled.is_err() {
            return filled;
        }
        let ghost read_so = self@;
        assert(filled->Ok_0 == ());
        let ghost last = if reading_stops(start, step, replies_of(*old(read)), read_so) {
            choose|last: SearchModel|
                #[trigger] reads_until(start, step, replies_of(*old(read)), last) && read_so
                    == last.with_state(StreamReadState::Canceled)
        } else {
            read_so
        };
        assert(gets_to(
            start,
            self.needle@,
            step,
            replies_of(*old(read)),
            *old(detect),
            *old(check),
            *old(search),
            last,
        ));
        if canceled() {
            self.core.state = StreamReadState::Canceled;
            assert(self@ == last.with_state(StreamReadState::Canceled));
            return Ok(());
        }
        match self.core.state {
            StreamReadState::Pending => {},
            _ => {
                return Ok(());
            },
        }
        let ghost got = self@;
        assert(reads_on(start, step, replies_of(*old(read)), got, filled));
        if self.core.ready == 0 {
            let prepared = self.prepare(detect, check);
            if prepared.is_err() {
                return prepared;
            }
            assert(prepares(got, *old(detect), *old(check), self@, prepared));
        }
        match self.core.state {
            StreamReadState::Pending => {},
            _ => {
                return Ok(());
            },
        }
        self.hand_over(step, search)
    }

    /// Goes on by at most one read and one batch of the matcher.
    pub fn step<
        R: FnMut(usize) -> StreamReply,
        D: FnMut(&Vec<u8>) -> SourceEncoding,
        V: FnMut(&Vec<u8>, usize, SourceEncoding, u64) -> Result<Option<u64>, SourceError>,
        M: FnMut(&Vec<u8>, &Vec<u8>, usize, usize, usize, usize) -> Result<ByteBatch, StreamError>,
        C: FnMut() -> bool,
    >(
        &mut self,
        step: StreamReadStep,
        active: QueryGeneration,
        read: &mut R,
        detect: &mut D,
        check: &mut V,
        search: &mut M,
        canceled: &mut C,
    ) -> (r: Result<StreamReadState, StreamReadError>)
        requires
            old(self)@.wf(),
            forall|n: usize| call_requires(*old(read), (n,)),
            forall|bytes: &Vec<u8>| call_requires(*old(detect), (bytes,)),
            forall|bytes: &Vec<u8>, n: usize, e: SourceEncoding, base: u64|
                call_requires(*old(check), (bytes, n, e, base)),
            matcher_ok(*old(search)),
            call_requires(*old(canceled), ()),
        ensures
            *final(read) == *old(read),
            *final(detect) == *old(detect),
            *final(check) == *old(check),
            *final(search) == *old(search),
            *final(canceled) == *old(canceled),
            final(self)@.wf(),
            final(self).needle == old(self).needle,
            final(self)@.core.same_job(old(self)@.core),
            steps(
                old(self)@,
                old(self).needle@,
                step,
                active,
                replies_of(*old(read)),
                *old(detect),
                *old(check),
                *old(search),
                *old(canceled),
                final(self)@,
                r,
            ),
    {
        self.core.stats.last_step_read = 0;
        self.core.stats.last_step_scanned = 0;
        self.core.stats.last_step_calls = 0;
        let ghost fresh = self@;
        assert(fresh == old(self)@.cleared());
        if active != self.core.options.generation {
            self.core.state = StreamReadState::Canceled;
            return Err(StreamReadError::StaleGeneration);
        }
        if canceled() {
            self.core.state = StreamReadState::Canceled;
            assert(gets_to(
                fresh,
                self.needle@,
                step,
                replies_of(*old(read)),
                *old(detect),
                *old(check),
                *old(search),
                fresh,
            ));
            return Ok(self.core.state);
        }
        match self.core.state {
            StreamReadState::Pending => {},
            _ => {
                return Ok(self.core.state);
            },
        }
        if step.max_bytes == 0 || step.max_hits == 0 {
            return Ok(self.core.state);
        }
        let advanced = self.advance(step, read, detect, check, search, canceled);
        let ghost worked = self@;
        if let Err(error) = advanced {
            self.core.state = StreamReadState::Failed(error);
            return Err(error);
        }
        if canceled() {
            self.core.state = StreamReadState::Canceled;
            proof {
                let replies = replies_of(*old(read));
                let needle = self.needle@;
                if stops(
                    fresh,
                    needle,
                    step,
                    replies,
                    *old(detect),
                    *old(check),
                    *old(search),
                    worked,
                ) {
                    let last = choose|last: SearchModel|
                        #[trigger] gets_to(
                            fresh,
                            needle,
                            step,
                            replies,
                            *old(detect),
                            *old(check),
                            *old(search),
                            last,
                        ) && worked == last.with_state(StreamReadState::Canceled);
                    assert(self@ == last.with_state(StreamReadState::Canceled));
                } else {
                    assert(gets_to(
                        fresh,
                        needle,
                        step,
                        replies,
                        *old(detect),
                        *old(check),
                        *old(search),
                        worked,
                    ));
                }
            }
        }
        Ok(self.core.state)
    }

    pub fn state(&self) -> (r: StreamReadState)
        ensures
            r == self@.core.state,
    {
        self.core.state
    }

    pub fn stats(&self) -> (r: StreamReadStats)
        ensures
            r == self@.core.stats,
    {
        self.core.stats
    }

    pub fn hits(&self) -> (r: &Vec<StreamingHit>)
        ensures
            r@ == self@.hits,
    {
        &self.hits
    }

    pub fn matches_seen(&self) -> (r: u64)
        ensures
            r == self@.core.matches_seen,
    {
        self.core.matches_seen
    }

    pub fn generation(&self) -> (r: QueryGeneration)
        ensures
            r == self@.core.options.generation,
    {
        self.core.options.generation
    }

    pub fn cancel(&mut self)
        ensures
            final(self)@ == old(self)@.with_state(StreamReadState::Canceled),
            final(self).needle == old(self).needle,
            final(self)@.core.same_job(old(self)@.core),
    {
        self.core.state = StreamReadState::Canceled;
    }
}

impl SearchModel {
    /// At the start of a step.
    pub open spec fn cleared(self) -> SearchModel {
        SearchModel {
            core: StreamCore {
                stats: StreamReadStats {
                    last_step_read: 0,
                    last_step_scanned: 0,
                    last_step_calls: 0,
                    ..self.core.stats
                },
                ..self.core
            },
            ..self
        }
    }
}

/// Whether a step may end so.
pub open spec fn steps<
    D: FnMut(&Vec<u8>) -> SourceEncoding,
    V: FnMut(&Vec<u8>, usize, SourceEncoding, u64) -> Result<Option<u64>, SourceError>,
    M: FnMut(&Vec<u8>, &Vec<u8>, usize, usize, usize, usize) -> Result<ByteBatch, StreamError>,
    C: FnMut() -> bool,
>(
    m: SearchModel,
    needle: NeedleModel,
    step: StreamReadStep,
    active: QueryGeneration,
    replies: spec_fn(usize, StreamReply) -> bool,
    detect: D,
    check: V,
    search: M,
    canceled: C,
    end: SearchModel,
    r: Result<StreamReadState, StreamReadError>,
) -> bool {
    let fresh = m.cleared();
    if active != m.core.options.generation {
        end == fresh.with_state(StreamReadState::Canceled) && r == Err::<
            StreamReadState,
            StreamReadError,
        >(StreamReadError::StaleGeneration)
    } else {
        ||| call_ensures(canceled, (), true) && stops(
            fresh,
            needle,
            step,
            replies,
            detect,
            check,
            search,
            end,
        ) && r == Ok::<StreamReadState, StreamReadError>(StreamReadState::Canceled)
        ||| (!(m.core.state is Pending) || step.max_bytes == 0 || step.max_hits == 0) && end
            == fresh && r == Ok::<StreamReadState, StreamReadError>(m.core.state)
        ||| m.core.state is Pending && step.max_bytes > 0 && step.max_hits > 0 && worked_on(
            fresh,
            needle,
            step,
            replies,
            detect,
            check,
            search,
            end,
            r,
        )
    }
}

/// Whether the work of a step may end so: a failure stays as the state.
pub open spec fn worked_on<
    D: FnMut(&Vec<u8>) -> SourceEncoding,
    V: FnMut(&Vec<u8>, usize, SourceEncoding, u64) -> Result<Option<u64>, SourceError>,
    M: FnMut(&Vec<u8>, &Vec<u8>, usize, usize, usize, usize) -> Result<ByteBatch, StreamError>,
>(
    m: SearchModel,
    needle: NeedleModel,
    step: StreamReadStep,
    replies: spec_fn(usize, StreamReply) -> bool,
    detect: D,
    check: V,
    search: M,
    end: SearchModel,
    r: Result<StreamReadState, StreamReadError>,
) -> bool {
    exists|worked: SearchModel, ok: Result<(), StreamReadError>|
        #[trigger] advances(m, needle, step, replies, detect, check, search, worked, ok) && match ok {
            Ok(_) => end == worked && r == Ok::<StreamReadState, StreamReadError>(
                worked.core.state,
            ),
            Err(e) => end == worked.with_state(StreamReadState::Failed(e)) && r == Err::<
                StreamReadState,
                StreamReadError,
            >(e),
        }
}

proof fn lemma_fills_more(
    m: SearchModel,
    count: usize,
    calls: int,
    few: spec_fn(usize, StreamReply) -> bool,
    more: spec_fn(usize, StreamReply) -> bool,
    end: SearchModel,
    r: Result<(), StreamReadError>,
)
    requires
        fills(m, count, calls, few, end, r),
        forall|n: usize, reply: StreamReply| #[trigger] few(n, reply) ==> more(n, reply),
    ensures
        fills(m, count, calls, more, end, r),
    decreases calls - m.core.stats.last_step_calls,
{
    if !(m.core.stats.last_step_calls >= calls || m.core.stats.last_step_calls >= usize::MAX
        || m.core.stats.read_calls >= m.core.options.max_read_calls) {
        let reply = choose|reply: StreamReply|
            #[trigger] few(count, reply) && match reply {
                StreamReply::Bytes(bytes) => if bytes@.len() == 0 {
                    end == m.called().ended() && r is Ok
                } else if bytes@.len() <= count {
                    end == m.called().received(bytes@) && r is Ok
                } else {
                    end == m.called() && r == Err::<(), StreamReadError>(
                        StreamReadError::InvalidReadCount,
                    )
                },
                StreamReply::Interrupted => fills(
                    m.called().interrupted(),
                    count,
                    calls,
                    few,
                    end,
                    r,
                ),
                StreamReply::Failed => end == m.called() && r == Err::<(), StreamReadError>(
                    StreamReadError::Io,
                ),
            };
        assert(more(count, reply));
        if reply is Interrupted {
            lemma_fills_more(m.called().interrupted(), count, calls, few, more, end, r);
        }
    }
}

proof fn lemma_interrupts_more(
    m: SearchModel,
    count: usize,
    calls: int,
    few: spec_fn(usize, StreamReply) -> bool,
    more: spec_fn(usize, StreamReply) -> bool,
    end: SearchModel,
)
    requires
        interrupts(m, count, calls, few, end),
        forall|n: usize, reply: StreamReply| #[trigger] few(n, reply) ==> more(n, reply),
    ensures
        interrupts(m, count, calls, more, end),
    decreases calls - m.core.stats.last_step_calls,
{
    if end != m {
        assert(few(count, StreamReply::Interrupted));
        lemma_interrupts_more(m.called().interrupted(), count, calls, few, more, end);
    }
}

proof fn lemma_gets_to_more<
    D: FnMut(&Vec<u8>) -> SourceEncoding,
    V: FnMut(&Vec<u8>, usize, SourceEncoding, u64) -> Result<Option<u64>, SourceError>,
    M: FnMut(&Vec<u8>, &Vec<u8>, usize, usize, usize, usize) -> Result<ByteBatch, StreamError>,
>(
    m: SearchModel,
    needle: NeedleModel,
    step: StreamReadStep,
    few: spec_fn(usize, StreamReply) -> bool,
    more: spec_fn(usize, StreamReply) -> bool,
    detect: D,
    check: V,
    search: M,
    last: SearchModel,
)
    requires
        gets_to(m, needle, step, few, detect, check, search, last),
        forall|n: usize, reply: StreamReply| #[trigger] few(n, reply) ==> more(n, reply),
    ensures
        gets_to(m, needle, step, more, detect, check, search, last),
{
    let count = m.asks(step) as usize;
    let calls = least(step.max_calls as int, MAX_STREAM_STEP_CALLS as int);
    if reads_until(m, step, few, last) {
        lemma_interrupts_more(m, count, calls, few, more, last);
    }
    if reads_on(m, step, few, last, Ok(())) && m.may_read() {
        lemma_fills_more(m, count, calls, few, more, last, Ok(()));
    }
    if advances(m, needle, step, few, detect, check, search, last, Ok(())) {
        lemma_advances_more(m, needle, step, few, more, detect, check, search, last, Ok(()));
    }
}

/// A step under one account of the host's replies is a step under any account
/// that allows as much.
pub proof fn lemma_steps_more<
    D: FnMut(&Vec<u8>) -> SourceEncoding,
    V: FnMut(&Vec<u8>, usize, SourceEncoding, u64) -> Result<Option<u64>, SourceError>,
    M: FnMut(&Vec<u8>, &Vec<u8>, usize, usize, usize, usize) -> Result<ByteBatch, StreamError>,
    C: FnMut() -> bool,
>(
    m: SearchModel,
    needle: NeedleModel,
    step: StreamReadStep,
    active: QueryGeneration,
    few: spec_fn(usize, StreamReply) -> bool,
    more: spec_fn(usize, StreamReply) -> bool,
    detect: D,
    check: V,
    search: M,
    canceled: C,
    end: SearchModel,
    r: Result<StreamReadState, StreamReadError>,
)
    requires
        steps(m, needle, step, active, few, detect, check, search, canceled, end, r),
        forall|n: usize, reply: StreamReply| #[trigger] few(n, reply) ==> more(n, reply),
    ensures
        steps(m, needle, step, active, more, detect, check, search, canceled, end, r),
{
    let fresh = m.cleared();
    if stops(fresh, needle, step, few, detect, check, search, end) {
        let last = choose|last: SearchModel|
            #[trigger] gets_to(fresh, needle, step, few, detect, check, search, last) && end
                == last.with_state(StreamReadState::Canceled);
        lemma_gets_to_more(fresh, needle, step, few, more, detect, check, search, last);
    }
    if worked_on(fresh, needle, step, few, detect, check, search, end, r) {
        let (worked, ok) = choose|worked: SearchModel, ok: Result<(), StreamReadError>|
            #[trigger] advances(
                fresh,
                needle,
                step,
                few,
                detect,
                check,
                search,
                worked,
                ok,
            ) && match ok {
                Ok(_) => end == worked && r == Ok::<StreamReadState, StreamReadError>(
                    worked.core.state,
                ),
                Err(e) => end == worked.with_state(StreamReadState::Failed(e)) && r == Err::<
                    StreamReadState,
                    StreamReadError,
                >(e),
            };
        lemma_advances_more(fresh, needle, step, few, more, detect, check, search, worked, ok);
        assert(advances(fresh, needle, step, more, detect, check, search, worked, ok));
    }
}

proof fn lemma_advances_more<
    D: FnMut(&Vec<u8>) -> SourceEncoding,
    V: FnMut(&Vec<u8>, usize, SourceEncoding, u64) -> Result<Option<u64>, SourceError>,
    M: FnMut(&Vec<u8>, &Vec<u8>, usize, usize, usize, usize) -> Result<ByteBatch, StreamError>,
>(
    m: SearchModel,
    needle: NeedleModel,
    step: StreamReadStep,
    few: spec_fn(usize, StreamReply) -> bool,
    more: spec_fn(usize, StreamReply) -> bool,
    detect: D,
    check: V,
    search: M,
    end: SearchModel,
    r: Result<(), StreamReadError>,
)
    requires
        advances(m, needle, step, few, detect, check, search, end, r),
        forall|n: usize, reply: StreamReply| #[trigger] few(n, reply) ==> more(n, reply),
    ensures
        advances(m, needle, step, more, detect, check, search, end, r),
{
    let count = m.asks(step) as usize;
    let calls = least(step.max_calls as int, MAX_STREAM_STEP_CALLS as int);
    if r is Err && reads_on(m, step, few, end, r) {
        if m.may_read() {
            lemma_fills_more(m, count, calls, few, more, end, r);
        }
        assert(reads_on(m, step, more, end, r));
    } else {
        let (got, ok) = choose|got: SearchModel, ok: Result<(), StreamReadError>|
            ok is Ok && #[trigger] reads_on(m, step, few, got, ok) && goes_on(
                got,
                needle,
                step,
                detect,
                check,
                search,
                end,
                r,
            );
        if m.may_read() {
            lemma_fills_more(m, count, calls, few, more, got, ok);
        }
        assert(reads_on(m, step, more, got, ok));
    }
}

} // verus!
