//! What the members that a query reports have in common, and what it may leave out.
use vstd::prelude::*;
use vstd::utf8::encode_utf8;

use super::plan::{are_patterns, is_pattern, is_plan, pattern_grant, ExpressionPlan, ParsedQuery};
use super::query::{
    expression_advances, expression_steps, filtered, fresh_expression, index_says, member_taken,
    term_ends, term_goes_on, term_starts, ExpressionJob, ExpressionModel, ExpressionOptions,
    ExpressionQuery, ExpressionState, ExpressionStats,
};
use super::{ExpressionError, ExpressionHit, QueryError};
use crate::identity::{ArenaOwnerId, QueryGeneration};
use crate::model::{group_views, views};
use crate::search::archive::PagedSnapshotError;
use crate::search::member_scan::{member_replies, LoadedModel, VerifiedMember};
use crate::search::paged_snapshot::query::EngineLimits;
use crate::search::snapshot_index::IndexDecision;
use crate::search::source::{SourceEncoding, SourceError, StreamError};
use crate::search::streaming::pursuits::{gives, Seeker};
use crate::search::streaming::report::is_started;
use crate::search::streaming::stepping::steps;
use crate::search::streaming::{
    units_from, ByteBatch, NeedleModel, SearchModel, StreamReadError, StreamReadState,
    StreamReadStep, StreamingMode,
};

verus! {

broadcast use group_views;

/// A literal is that of a text: its UTF-8, and its units in either order.
pub open spec fn spells(needle: NeedleModel, text: Seq<char>) -> bool {
    needle.mode == StreamingMode::ExactText && needle.utf8 == encode_utf8(text)
}

/// The literals of a plan are those of its excluded terms, behind them those of its
/// required terms, and last that of the term whose occurrences count.
pub open spec fn carries_its_terms<P, G>(plan: ExpressionPlan<P, G>) -> bool {
    let out = plan.syntax.exclusion_terms@;
    let must = plan.syntax.conjunction_terms@;
    &&& plan.patterns@.len() == out.len() + must.len() + 1
    &&& forall|i: int| 0 <= i < out.len() ==> spells(#[trigger] plan.patterns@[i]@, out[i]@)
    &&& forall|i: int|
        out.len() <= i < out.len() + must.len() ==> spells(
            #[trigger] plan.patterns@[i]@,
            must[i - out.len()]@,
        )
    &&& spells(plan.patterns@.last()@, plan.syntax.primary_needle@)
}

/// A plan carries the terms of the query that the host parsed, all of them.
pub proof fn plans_carry_every_term<
    P,
    G,
    A: Fn(u64, u64) -> bool,
    Q: FnOnce(&str) -> Result<ParsedQuery<P, G>, QueryError>,
>(
    plan: ExpressionPlan<P, G>,
    owner: ArenaOwnerId,
    query: &str,
    max_query_len: int,
    limit: int,
    allocation: u64,
    first: u64,
    reserve: A,
    parse: Q,
)
    requires
        is_plan(
            Ok(plan),
            owner,
            query,
            max_query_len,
            limit,
            allocation,
            first,
            reserve,
            parse,
        ),
    ensures
        carries_its_terms(plan),
        plan.owner == owner,
        call_ensures(parse, (query,), Ok(plan.syntax)),
{
    let terms = plan.syntax.terms();
    let found = views(plan.patterns@);
    assert(are_patterns(found, owner, terms, limit, first, reserve));
    let out = plan.syntax.exclusion_terms@;
    let must = plan.syntax.conjunction_terms@;
    assert forall|i: int| 0 <= i < found.len() implies spells(
        #[trigger] plan.patterns@[i]@,
        terms[i],
    ) by {
        assert(found[i] == plan.patterns@[i]@);
        assert(is_pattern(Ok(found[i]), owner, terms[i], limit, (first + i) as u64, reserve));
        let granted = choose|granted: bool|
            #[trigger] pattern_grant(terms[i], limit, (first + i) as u64, reserve, granted) && Ok::<
                NeedleModel,
                StreamReadError,
            >(found[i]) == crate::search::streaming::needle_of(
                owner,
                encode_utf8(terms[i]),
                Some(units_from(terms[i], 0)),
                limit,
                granted,
            );
    }
    assert forall|i: int| 0 <= i < out.len() implies terms[i] == out[i]@ by {}
    assert forall|i: int| out.len() <= i < out.len() + must.len() implies terms[i] == must[i
        - out.len()]@ by {}
    assert(terms[(out.len() + must.len()) as int] == plan.syntax.primary_needle@);
}

/// The hosts of a query.
pub ghost struct Hosts<L, A, D, V, M, C> {
    pub admits: spec_fn(Seq<u8>, bool) -> bool,
    pub load: L,
    pub reserve: A,
    pub seeker: Seeker<D, V, M, C>,
}

impl<
    L: FnMut(usize) -> Result<VerifiedMember, PagedSnapshotError>,
    A: FnOnce(u64) -> bool,
    D: FnMut(&Vec<u8>) -> SourceEncoding,
    V: FnMut(&Vec<u8>, usize, SourceEncoding, u64) -> Result<Option<u64>, SourceError>,
    M: FnMut(&Vec<u8>, &Vec<u8>, usize, usize, usize, usize) -> Result<ByteBatch, StreamError>,
    C: FnMut() -> bool,
> Hosts<L, A, D, V, M, C> {
    /// The bytes of each member are what the host loads for it.
    pub open spec fn loads(self, contents: spec_fn(int) -> Seq<u8>) -> bool {
        forall|k: usize, member: VerifiedMember| #[trigger]
            call_ensures(self.load, (k,), Ok::<VerifiedMember, PagedSnapshotError>(member))
                ==> member@.bytes == contents(k as int)
    }

    /// A search of all of the bytes for a text found nothing.
    pub open spec fn found_nowhere(self, text: Seq<char>, bytes: Seq<u8>) -> bool {
        exists|needle: NeedleModel, s: SearchModel|
            spells(needle, text) && #[trigger] self.seeker.reaches(needle, bytes, s)
                && s.core.state is Complete && s.core.matches_seen == 0
    }

    /// A search of the bytes for a text found it.
    pub open spec fn found_somewhere(self, text: Seq<char>, bytes: Seq<u8>) -> bool {
        exists|needle: NeedleModel, s: SearchModel|
            spells(needle, text) && #[trigger] self.seeker.reaches(needle, bytes, s) && concluded(s)
                && s.core.matches_seen > 0
    }

    /// A search of the bytes for a text has this hit.
    #[verifier::opaque]
    pub open spec fn found_at(
        self,
        text: Seq<char>,
        bytes: Seq<u8>,
        hit: ExpressionHit,
    ) -> bool {
        exists|needle: NeedleModel, s: SearchModel, i: int|
            spells(needle, text) && #[trigger] self.seeker.reaches(needle, bytes, s) && concluded(s)
                && 0 <= i < s.hits.len() && (#[trigger] s.hits[i]).range == hit.range
                && s.hits[i].occurrence == hit.occurrence
    }

    /// The first terms, up to one of them, are missing from bytes where they must be
    /// and there where they must be.
    #[verifier::opaque]
    pub open spec fn met<P, G>(
        self,
        plan: ExpressionPlan<P, G>,
        bytes: Seq<u8>,
        term: int,
    ) -> bool {
        let out = plan.syntax.exclusion_terms@;
        let must = plan.syntax.conjunction_terms@;
        &&& forall|i: int|
            0 <= i < out.len() && i < term ==> self.found_nowhere((#[trigger] out[i])@, bytes)
        &&& forall|i: int|
            0 <= i < must.len() && out.len() + i < term ==> self.found_somewhere(
                (#[trigger] must[i])@,
                bytes,
            )
    }

    /// Bytes do not match: an excluded term was found, or all of them were searched
    /// for a required term in vain.
    pub open spec fn unmet<P, G>(self, plan: ExpressionPlan<P, G>, bytes: Seq<u8>) -> bool {
        let out = plan.syntax.exclusion_terms@;
        let must = plan.syntax.conjunction_terms@;
        ||| exists|i: int| 0 <= i < out.len() && self.found_somewhere((#[trigger] out[i])@, bytes)
        ||| exists|i: int| 0 <= i < must.len() && self.found_nowhere((#[trigger] must[i])@, bytes)
    }

    /// All terms are met by bytes, and all hits of the last are among these.
    pub open spec fn listed<P, G>(
        self,
        plan: ExpressionPlan<P, G>,
        bytes: Seq<u8>,
        k: int,
        hits: Seq<ExpressionHit>,
    ) -> bool {
        &&& self.met(plan, bytes, plan.patterns@.len() - 1)
        &&& exists|needle: NeedleModel, s: SearchModel|
            {
                &&& spells(needle, plan.syntax.primary_needle@)
                &&& #[trigger] self.seeker.reaches(needle, bytes, s)
                &&& s.core.state is Complete
                &&& lists_all(s, k, hits)
            }
    }

    /// Bytes are not text, as far as a search of them for some term tells.
    pub open spec fn no_text(self, bytes: Seq<u8>) -> bool {
        exists|needle: NeedleModel, s: SearchModel|
            #[trigger] self.seeker.reaches(needle, bytes, s) && s.core.state is UnsupportedText
    }

    /// What became of a member.
    #[verifier::opaque]
    pub open spec fn settled<P, G>(
        self,
        query: ExpressionQuery<P, G>,
        contents: spec_fn(int) -> Seq<u8>,
        k: int,
        hits: Seq<ExpressionHit>,
    ) -> bool {
        let member = query.directory@.members[k];
        ||| member.data is Unavailable
        ||| (self.admits)(member.path, false)
        ||| query.index matches Some(index) && index@.text_answer(
            k,
            Some(encode_utf8(query.plan.syntax.primary_needle@)),
        ) is Excluded
        ||| self.no_text(contents(k))
        ||| self.unmet(*query.plan, contents(k))
        ||| self.listed(*query.plan, contents(k), k, hits)
    }

    /// What holds of a query wherever it stands.
    pub open spec fn sound<P, G>(
        self,
        query: ExpressionQuery<P, G>,
        contents: spec_fn(int) -> Seq<u8>,
        m: ExpressionModel,
    ) -> bool {
        let plan = *query.plan;
        let last = plan.patterns@.len() - 1;
        let going = m.core.state is Pending || m.core.state is Complete;
        &&& m.active matches Some((s, member)) ==> {
            &&& m.core.term < plan.patterns@.len()
            &&& member.ordinal < m.core.next
            &&& member.ordinal == m.core.next - 1
            &&& member.bytes == contents(member.ordinal as int)
            &&& self.seeker.reaches(plan.patterns@[m.core.term as int]@, member.bytes, s)
            &&& self.met(plan, member.bytes, m.core.term as int)
            &&& m.core.state is Pending
        }
        &&& forall|h: int|
            0 <= h < m.hits.len() ==> {
                let hit = #[trigger] m.hits[h];
                &&& self.met(plan, contents(hit.ordinal as int), last)
                &&& self.found_at(
                    plan.syntax.primary_needle@,
                    contents(hit.ordinal as int),
                    hit,
                )
            }
        &&& in_order(m)
        &&& m.core.next <= query.directory@.members.len()
        &&& going ==> forall|k: int|
            0 <= k < m.core.next && !(m.active is Some && k == m.core.next - 1)
                ==> #[trigger] self.settled(query, contents, k, m.hits)
        &&& m.core.state is Complete ==> m.core.next == query.directory@.members.len() && m.active
            is None
    }
}

/// A hit comes before another: in an earlier member, or earlier in the same.
pub open spec fn comes_before(a: ExpressionHit, b: ExpressionHit) -> bool {
    a.ordinal < b.ordinal || a.ordinal == b.ordinal && a.occurrence < b.occurrence
}

/// Hits come one after the other, all of members that were gone through.
pub open spec fn in_order(m: ExpressionModel) -> bool {
    &&& forall|a: int, b: int|
        0 <= a < b < m.hits.len() ==> comes_before(#[trigger] m.hits[a], #[trigger] m.hits[b])
    &&& forall|h: int|
        0 <= h < m.hits.len() ==> (#[trigger] m.hits[h]).ordinal < m.core.next && (m.active
            is Some ==> m.hits[h].ordinal < m.core.next - 1)
}

/// A search came to the end of its input or of what it may go through or report.
pub open spec fn concluded(s: SearchModel) -> bool {
    s.core.state is Complete || s.core.state is Truncated || s.core.state is ByteLimit
}

/// All hits of a search are among these, as hits of one member.
pub open spec fn lists_all(s: SearchModel, k: int, hits: Seq<ExpressionHit>) -> bool {
    forall|i: int| 0 <= i < s.hits.len() ==> is_listed(#[trigger] s.hits[i].range, k, hits)
}

/// A range is among the hits, as one of a member.
pub open spec fn is_listed(
    range: crate::identity::ByteRange,
    k: int,
    hits: Seq<ExpressionHit>,
) -> bool {
    exists|h: int|
        0 <= h < hits.len() && (#[trigger] hits[h]).ordinal == k && hits[h].range == range
}

impl<
    L: FnMut(usize) -> Result<VerifiedMember, PagedSnapshotError>,
    A: FnOnce(u64) -> bool,
    D: FnMut(&Vec<u8>) -> SourceEncoding,
    V: FnMut(&Vec<u8>, usize, SourceEncoding, u64) -> Result<Option<u64>, SourceError>,
    M: FnMut(&Vec<u8>, &Vec<u8>, usize, usize, usize, usize) -> Result<ByteBatch, StreamError>,
    C: FnMut() -> bool,
> Hosts<L, A, D, V, M, C> {
    /// What holds of the hits whatever becomes of a query.
    pub open spec fn earned<P, G>(
        self,
        query: ExpressionQuery<P, G>,
        contents: spec_fn(int) -> Seq<u8>,
        m: ExpressionModel,
    ) -> bool {
        &&& forall|h: int|
            0 <= h < m.hits.len() ==> self.earns(query, contents, #[trigger] m.hits[h])
        &&& in_order(m)
        &&& m.core.next <= query.directory@.members.len()
    }

    /// A hit is one of the counted term, in a member that meets all other terms.
    pub open spec fn earns<P, G>(
        self,
        query: ExpressionQuery<P, G>,
        contents: spec_fn(int) -> Seq<u8>,
        hit: ExpressionHit,
    ) -> bool {
        let plan = *query.plan;
        &&& self.met(plan, contents(hit.ordinal as int), plan.patterns@.len() - 1)
        &&& self.found_at(plan.syntax.primary_needle@, contents(hit.ordinal as int), hit)
    }

    /// The start of a search.
    proof fn lemma_starts(
        self,
        m: ExpressionModel,
        job: ExpressionJob,
        member: LoadedModel,
        end: ExpressionModel,
        r: Result<(), ExpressionError>,
    )
        requires
            term_starts(
                m,
                job,
                member,
                self.reserve,
                self.seeker.detect,
                self.seeker.check,
                end,
                r,
            ),
            member.bytes.len() <= u64::MAX,
            0 <= m.core.term < job.patterns.len(),
        ensures
            end.hits == m.hits,
            end.core.next == m.core.next,
            end.core.state == m.core.state,
            end.core.term == m.core.term,
            r is Ok ==> (end.active matches Some((s, loaded)) && loaded == member
                && self.seeker.reaches(job.patterns[m.core.term as int], member.bytes, s)),
            r is Err ==> end.active == m.active,
    {
        let length = member.bytes.len() as u64;
        let primary = m.core.term == job.patterns.len() - 1;
        let needle = job.patterns[m.core.term as int];
        let options = m.search_options(length, primary);
        let request = m.request(member.ordinal as int);
        let begun = choose|begun: Result<SearchModel, StreamReadError>|
            #[trigger] is_started(
                begun,
                request,
                length,
                needle,
                options,
                m.core.limits.needle_bytes as int,
                self.reserve,
                self.seeker.detect,
                self.seeker.check,
            ) && match begun {
                Err(e) => end == m && r == Err::<(), ExpressionError>(ExpressionError::Pattern(e)),
                Ok(search) => end == (ExpressionModel {
                    active: Some((search, member)),
                    ..m.scan_counted(primary)
                }) && r is Ok,
            };
        if let Ok(search) = begun {
            assert(crate::search::streaming::report::starts(
                Ok::<SearchModel, StreamReadError>(search),
                crate::search::streaming::report::fresh_search(
                    request,
                    member.bytes.len() as u64,
                    needle,
                    options,
                ),
                self.seeker.detect,
                self.seeker.check,
            ));
            assert(self.seeker.begun(needle, member.bytes, search));
            self.seeker.lemma_reaches(needle, member.bytes, search, search);
        }
    }

    /// More hits leave what was settled settled.
    proof fn lemma_settled_more<P, G>(
        self,
        query: ExpressionQuery<P, G>,
        contents: spec_fn(int) -> Seq<u8>,
        k: int,
        hits: Seq<ExpressionHit>,
        more: Seq<ExpressionHit>,
    )
        requires
            self.settled(query, contents, k, hits),
        ensures
            self.settled(query, contents, k, hits + more),
    {
        reveal(Hosts::settled);
        let plan = *query.plan;
        if self.listed(plan, contents(k), k, hits) {
            let (needle, s) = choose|needle: NeedleModel, s: SearchModel|
                {
                    &&& spells(needle, plan.syntax.primary_needle@)
                    &&& #[trigger] self.seeker.reaches(needle, contents(k), s)
                    &&& s.core.state is Complete
                    &&& lists_all(s, k, hits)
                };
            assert forall|i: int| 0 <= i < s.hits.len() implies is_listed(
                #[trigger] s.hits[i].range,
                k,
                hits + more,
            ) by {
                assert(is_listed(s.hits[i].range, k, hits));
                let h = choose|h: int|
                    0 <= h < hits.len() && (#[trigger] hits[h]).ordinal == k && hits[h].range
                        == s.hits[i].range;
                assert((hits + more)[h] == hits[h]);
            }
            assert(lists_all(s, k, hits + more));
            assert(self.listed(plan, contents(k), k, hits + more));
        }
    }

    /// The end of a search for a term.
    #[verifier::rlimit(40)]
    proof fn lemma_ends<P, G>(
        self,
        query: ExpressionQuery<P, G>,
        contents: spec_fn(int) -> Seq<u8>,
        m: ExpressionModel,
        search: SearchModel,
        member: LoadedModel,
        end: ExpressionModel,
        r: Result<(), ExpressionError>,
    )
        requires
            carries_its_terms(*query.plan),
            crate::search::streaming::stepping::matcher_ok(self.seeker.search),
            m.active is None,
            m.core.state is Pending,
            m.core.term < query.plan.patterns@.len(),
            self.earned(query, contents, m),
            forall|h: int|
                0 <= h < m.hits.len() ==> (#[trigger] m.hits[h]).ordinal < m.core.next - 1,
            member.ordinal == m.core.next - 1,
            member.bytes == contents(member.ordinal as int),
            member.bytes.len() <= u64::MAX,
            self.seeker.reaches(
                query.plan.patterns@[m.core.term as int]@,
                member.bytes,
                search,
            ),
            self.met(*query.plan, member.bytes, m.core.term as int),
            forall|k: int|
                0 <= k < m.core.next - 1 ==> #[trigger] self.settled(query, contents, k, m.hits),
            term_ends(
                m,
                query.job(),
                search,
                member,
                self.reserve,
                self.seeker.detect,
                self.seeker.check,
                end,
                r,
            ),
        ensures
            self.earned(query, contents, end),
            r is Ok ==> self.sound(query, contents, end),
    {
        reveal(Hosts::met);
        reveal(Hosts::settled);
        reveal(Hosts::found_at);
        let plan = *query.plan;
        let job = query.job();
        let term = m.core.term as int;
        let out = plan.syntax.exclusion_terms@;
        let must = plan.syntax.conjunction_terms@;
        let bytes = member.bytes;
        let needle = plan.patterns@[term]@;
        let k = m.core.next - 1;
        assert(job.patterns[term] == needle);
        match search.core.state {
            StreamReadState::UnsupportedText => {
                assert(self.no_text(contents(k)));
                assert(self.settled(query, contents, k, end.hits));
            },
            StreamReadState::Complete | StreamReadState::Truncated | StreamReadState::ByteLimit => {
                if term == plan.patterns@.len() - 1 {
                    let fresh = Seq::new(search.hits.len(), |i: int| m.hit_of(search, member, i));
                    assert(end.hits == m.hits + fresh);
                    assert(spells(needle, plan.syntax.primary_needle@));
                    assert forall|h: int| 0 <= h < end.hits.len() implies self.earns(
                        query,
                        contents,
                        #[trigger] end.hits[h],
                    ) by {
                        if h < m.hits.len() {
                            assert(end.hits[h] == m.hits[h]);
                        } else {
                            let i = h - m.hits.len();
                            assert(end.hits[h] == fresh[i]);
                            assert(search.hits[i].range == end.hits[h].range);
                            assert(self.found_at(
                                plan.syntax.primary_needle@,
                                bytes,
                                end.hits[h],
                            ));
                        }
                    }
                    self.seeker.hits_are_seen(needle, bytes, search);
                    assert forall|a: int, b: int| 0 <= a < b < end.hits.len() implies comes_before(
                        #[trigger] end.hits[a],
                        #[trigger] end.hits[b],
                    ) by {
                        if a < m.hits.len() {
                            assert(end.hits[a] == m.hits[a]);
                        } else {
                            assert(end.hits[a] == fresh[a - m.hits.len()]);
                        }
                        if b < m.hits.len() {
                            assert(end.hits[b] == m.hits[b]);
                        } else {
                            assert(end.hits[b] == fresh[b - m.hits.len()]);
                        }
                    }
                    assert forall|h: int| 0 <= h < end.hits.len() implies (
                    #[trigger] end.hits[h]).ordinal < end.core.next by {
                        if h < m.hits.len() {
                            assert(end.hits[h] == m.hits[h]);
                        } else {
                            assert(end.hits[h] == fresh[h - m.hits.len()]);
                        }
                    }
                    if search.core.state is Complete {
                        assert forall|i: int| 0 <= i < search.hits.len() implies is_listed(
                            #[trigger] search.hits[i].range,
                            k,
                            end.hits,
                        ) by {
                            assert(end.hits[m.hits.len() + i] == fresh[i]);
                        }
                        assert(lists_all(search, k, end.hits));
                        assert(self.listed(plan, contents(k), k, end.hits));
                        assert(self.settled(query, contents, k, end.hits));
                    }
                    assert forall|j: int| 0 <= j < m.core.next - 1 implies #[trigger] self.settled(
                        query,
                        contents,
                        j,
                        end.hits,
                    ) by {
                        assert(self.settled(query, contents, j, m.hits));
                        self.lemma_settled_more(query, contents, j, m.hits, fresh);
                    }
                } else {
                    let found = search.core.matches_seen > 0;
                    if term < out.len() {
                        assert(spells(needle, out[term]@));
                        if found {
                            assert(self.found_somewhere(out[term]@, bytes));
                            assert(self.unmet(plan, contents(k)));
                            assert(self.settled(query, contents, k, end.hits));
                        } else if search.core.state is Complete {
                            assert(self.found_nowhere(out[term]@, bytes));
                        }
                    } else {
                        assert(spells(needle, must[term - out.len()]@));
                        if found {
                            assert(self.found_somewhere(must[term - out.len()]@, bytes));
                        } else if search.core.state is Complete {
                            assert(self.found_nowhere(must[term - out.len()]@, bytes));
                            assert(self.unmet(plan, contents(k)));
                            assert(self.settled(query, contents, k, end.hits));
                        }
                    }
                    let next = ExpressionModel {
                        core: super::query::ExpressionCore {
                            term: (m.core.term + 1) as usize,
                            ..m.core
                        },
                        ..m
                    };
                    let accepted = if term < out.len() {
                        !found && search.core.state is Complete
                    } else {
                        found
                    };
                    if accepted {
                        assert(self.met(plan, bytes, term + 1)) by {
                            assert forall|i: int|
                                0 <= i < out.len() && i < term + 1 implies self.found_nowhere(
                                (#[trigger] out[i])@,
                                bytes,
                            ) by {}
                            assert forall|i: int|
                                0 <= i < must.len() && out.len() + i < term
                                    + 1 implies self.found_somewhere(
                                (#[trigger] must[i])@,
                                bytes,
                            ) by {}
                        }
                        self.lemma_starts(next, job, member, end, r);
                    }
                }
            },
            _ => {},
        }
    }

    /// The work of a step keeps what holds of a query.
    #[verifier::rlimit(40)]
    proof fn lemma_advances<P, G>(
        self,
        query: ExpressionQuery<P, G>,
        contents: spec_fn(int) -> Seq<u8>,
        m: ExpressionModel,
        step: StreamReadStep,
        end: ExpressionModel,
        r: Result<(), ExpressionError>,
    )
        requires
            carries_its_terms(*query.plan),
            crate::search::streaming::stepping::matcher_ok(self.seeker.search),
            self.loads(contents),
            query.directory@.members.len() <= usize::MAX,
            self.sound(query, contents, m),
            m.core.state is Pending,
            expression_advances(
                m,
                query.job(),
                step,
                self.admits,
                self.load,
                self.reserve,
                self.seeker.detect,
                self.seeker.check,
                self.seeker.search,
                self.seeker.canceled,
                end,
                r,
            ),
            forall|k: int| (#[trigger] contents(k)).len() <= u64::MAX,
        ensures
            self.earned(query, contents, end),
            r is Ok ==> self.sound(query, contents, end),
    {
        reveal(Hosts::settled);
        let plan = *query.plan;
        let job = query.job();
        assert(self.earned(query, contents, m));
        if m.core.scope_at < job.directory.members.len() {
        } else if m.active is None {
            if m.core.next < job.directory.members.len() {
                let k = m.core.next as int;
                let member = job.directory.members[k];
                let admitted = choose|admitted: bool|
                    #[trigger] filtered(self.admits, member.path, admitted) && if !admitted
                        || member.data is Unavailable {
                        end == m.advanced() && r is Ok
                    } else {
                        member_taken(
                            m.advanced(),
                            job,
                            m.core.next,
                            self.load,
                            self.reserve,
                            self.seeker.detect,
                            self.seeker.check,
                            end,
                            r,
                        )
                    };
                if !admitted || member.data is Unavailable {
                    assert(self.settled(query, contents, k, end.hits));
                } else {
                    self.lemma_taken(query, contents, m, end, r);
                }
            }
        } else {
            self.lemma_goes_on(query, contents, m, step, end, r);
        }
    }

    /// Taking up a member keeps what holds of a query.
    proof fn lemma_taken<P, G>(
        self,
        query: ExpressionQuery<P, G>,
        contents: spec_fn(int) -> Seq<u8>,
        m: ExpressionModel,
        end: ExpressionModel,
        r: Result<(), ExpressionError>,
    )
        requires
            carries_its_terms(*query.plan),
            crate::search::streaming::stepping::matcher_ok(self.seeker.search),
            self.loads(contents),
            query.directory@.members.len() <= usize::MAX,
            self.sound(query, contents, m),
            m.core.state is Pending,
            m.active is None,
            m.core.next < query.directory@.members.len(),
            member_taken(
                m.advanced(),
                query.job(),
                m.core.next,
                self.load,
                self.reserve,
                self.seeker.detect,
                self.seeker.check,
                end,
                r,
            ),
            forall|k: int| (#[trigger] contents(k)).len() <= u64::MAX,
        ensures
            self.earned(query, contents, end),
            r is Ok ==> self.sound(query, contents, end),
    {
        reveal(Hosts::settled);
        reveal(Hosts::met);
        let plan = *query.plan;
        let job = query.job();
        let k = m.core.next as int;
        let decision = index_says(job, k);
        let told = m.advanced().decided(decision);
        if decision == Some(IndexDecision::Excluded) {
            assert(self.settled(query, contents, k, end.hits));
        } else if !(job.directory.members[k].observed_bytes > 0 && m.core.stats.scanned_bytes
            == m.core.options.max_scan_bytes) {
            let answer = choose|answer: Result<VerifiedMember, PagedSnapshotError>|
                #[trigger] call_ensures(self.load, (m.core.next,), answer) && match answer {
                    Err(e) => end == told && r == Err::<(), ExpressionError>(
                        ExpressionError::Search(
                            crate::search::paged_snapshot::PagedSearchError::Archive(e),
                        ),
                    ),
                    Ok(member) => if member.ordinal != m.core.next {
                        end == told && r == Err::<(), ExpressionError>(
                            ExpressionError::Search(
                                crate::search::paged_snapshot::PagedSearchError::InvalidHit,
                            ),
                        )
                    } else {
                        term_starts(
                            told.loaded(member@.bytes.len() as usize),
                            job,
                            member@,
                            self.reserve,
                            self.seeker.detect,
                            self.seeker.check,
                            end,
                            r,
                        )
                    },
                };
            if let Ok(member) = answer {
                if member.ordinal == m.core.next {
                    assert(member@.bytes == contents(k));
                    self.lemma_starts(
                        told.loaded(member@.bytes.len() as usize),
                        job,
                        member@,
                        end,
                        r,
                    );
                    assert(job.patterns[0] == plan.patterns@[0]@);
                }
            }
        }
    }

    /// Going on with a search keeps what holds of a query.
    proof fn lemma_goes_on<P, G>(
        self,
        query: ExpressionQuery<P, G>,
        contents: spec_fn(int) -> Seq<u8>,
        m: ExpressionModel,
        step: StreamReadStep,
        end: ExpressionModel,
        r: Result<(), ExpressionError>,
    )
        requires
            carries_its_terms(*query.plan),
            crate::search::streaming::stepping::matcher_ok(self.seeker.search),
            self.sound(query, contents, m),
            m.core.state is Pending,
            m.active is Some,
            term_goes_on(
                m,
                query.job(),
                step,
                self.reserve,
                self.seeker.detect,
                self.seeker.check,
                self.seeker.search,
                self.seeker.canceled,
                end,
                r,
            ),
            forall|k: int| (#[trigger] contents(k)).len() <= u64::MAX,
        ensures
            self.earned(query, contents, end),
            r is Ok ==> self.sound(query, contents, end),
    {
        let job = query.job();
        let (before, member) = m.active->0;
        let needle = query.plan.patterns@[m.core.term as int]@;
        let at = before.core.stats.bytes_read as int;
        assert(job.patterns[m.core.term as int] == needle);
        let (after, said) = choose|
            after: SearchModel,
            said: Result<StreamReadState, StreamReadError>,
        |
            #[trigger] steps(
                before,
                job.patterns[m.core.term as int],
                step,
                m.core.options.generation,
                member_replies(member.bytes, at),
                self.seeker.detect,
                self.seeker.check,
                self.seeker.search,
                self.seeker.canceled,
                after,
                said,
            ) && match said {
                Err(e) => end == (ExpressionModel { active: None, ..m }) && r == Err::<
                    (),
                    ExpressionError,
                >(ExpressionError::Pattern(e)),
                Ok(state) => {
                    let counted = m.scanned(
                        after.core.stats.scanned_bytes.wrapping_sub(
                            before.core.stats.scanned_bytes,
                        ),
                    );
                    if state is Pending {
                        end == (ExpressionModel { active: Some((after, member)), ..counted }) && r
                            is Ok
                    } else {
                        term_ends(
                            ExpressionModel { active: None, ..counted },
                            job,
                            after,
                            member,
                            self.reserve,
                            self.seeker.detect,
                            self.seeker.check,
                            end,
                            r,
                        )
                    }
                },
            };
        assert(self.earned(query, contents, m));
        if said is Ok {
            assert(gives(member.bytes, at, member_replies(member.bytes, at)));
            assert(self.seeker.stepped(needle, member.bytes, before, after));
            self.seeker.lemma_reaches(needle, member.bytes, before, after);
            if !(said->Ok_0 is Pending) {
                let counted = ExpressionModel {
                    active: None,
                    ..m.scanned(
                        after.core.stats.scanned_bytes.wrapping_sub(
                            before.core.stats.scanned_bytes,
                        ),
                    )
                };
                assert(contents(member.ordinal as int).len() <= u64::MAX);
                self.lemma_ends(query, contents, counted, after, member, end, r);
            }
        }
    }

    /// The states of a query, from its start on.
    pub open spec fn runs<P, G>(
        self,
        query: ExpressionQuery<P, G>,
        states: Seq<ExpressionModel>,
    ) -> bool {
        &&& states.len() > 0
        &&& exists|options: ExpressionOptions, limits: EngineLimits|
            states[0] == #[trigger] fresh_expression(options, limits)
        &&& forall|i: int|
            0 <= i < states.len() - 1 ==> self.steps_to(query, #[trigger] states[i], states[i + 1])
    }

    /// A step of a query leads from one state to another.
    pub open spec fn steps_to<P, G>(
        self,
        query: ExpressionQuery<P, G>,
        m: ExpressionModel,
        end: ExpressionModel,
    ) -> bool {
        exists|
            step: StreamReadStep,
            active: QueryGeneration,
            r: Result<ExpressionState, ExpressionError>,
        |
            #[trigger] expression_steps(
                m,
                query.job(),
                step,
                active,
                self.admits,
                self.load,
                self.reserve,
                self.seeker.detect,
                self.seeker.check,
                self.seeker.search,
                self.seeker.canceled,
                end,
                r,
            )
    }

    proof fn lemma_steps<P, G>(
        self,
        query: ExpressionQuery<P, G>,
        contents: spec_fn(int) -> Seq<u8>,
        m: ExpressionModel,
        end: ExpressionModel,
    )
        requires
            carries_its_terms(*query.plan),
            crate::search::streaming::stepping::matcher_ok(self.seeker.search),
            self.loads(contents),
            query.directory@.members.len() <= usize::MAX,
            self.sound(query, contents, m),
            self.steps_to(query, m, end),
            forall|k: int| (#[trigger] contents(k)).len() <= u64::MAX,
        ensures
            self.sound(query, contents, end),
    {
        let (step, active, r) = choose|
            step: StreamReadStep,
            active: QueryGeneration,
            r: Result<ExpressionState, ExpressionError>,
        |
            #[trigger] expression_steps(
                m,
                query.job(),
                step,
                active,
                self.admits,
                self.load,
                self.reserve,
                self.seeker.detect,
                self.seeker.check,
                self.seeker.search,
                self.seeker.canceled,
                end,
                r,
            );
        let fresh = m.with_stats(ExpressionStats { last_step_scanned_bytes: 0, ..m.core.stats });
        assert(self.sound(query, contents, fresh));
        assert(self.earned(query, contents, fresh));
        if end == fresh || end == fresh.stopped(ExpressionState::Canceled) {
            assert(self.sound(query, contents, end));
        } else {
            let (after, ok) = choose|after: ExpressionModel, ok: Result<(), ExpressionError>|
                #[trigger] expression_advances(
                    fresh,
                    query.job(),
                    step,
                    self.admits,
                    self.load,
                    self.reserve,
                    self.seeker.detect,
                    self.seeker.check,
                    self.seeker.search,
                    self.seeker.canceled,
                    after,
                    ok,
                ) && {
                    ||| end == after.stopped(ExpressionState::Canceled) && (r matches Err(e) && e
                        == ExpressionError::Canceled) && call_ensures(
                        self.seeker.canceled,
                        (),
                        true,
                    )
                    ||| match ok {
                        Ok(_) => end == after && (r matches Ok(state) && state == after.core.state),
                        Err(e) => end == after.stopped(ExpressionState::Failed(e)) && (
                        r matches Err(f) && f == e),
                    }
                };
            self.lemma_advances(query, contents, fresh, step, after, ok);
            if end != after {
                assert(self.earned(query, contents, end));
                assert forall|h: int| 0 <= h < end.hits.len() implies ({
                    let hit = #[trigger] end.hits[h];
                    &&& self.met(
                        *query.plan,
                        contents(hit.ordinal as int),
                        query.plan.patterns@.len() - 1,
                    )
                    &&& self.found_at(
                        query.plan.syntax.primary_needle@,
                        contents(hit.ordinal as int),
                        hit,
                    )
                }) by {
                    assert(self.earns(query, contents, end.hits[h]));
                }
            }
        }
    }

    proof fn lemma_runs<P, G>(
        self,
        query: ExpressionQuery<P, G>,
        contents: spec_fn(int) -> Seq<u8>,
        states: Seq<ExpressionModel>,
        n: int,
    )
        requires
            carries_its_terms(*query.plan),
            crate::search::streaming::stepping::matcher_ok(self.seeker.search),
            self.loads(contents),
            query.directory@.members.len() <= usize::MAX,
            self.runs(query, states),
            forall|k: int| (#[trigger] contents(k)).len() <= u64::MAX,
            0 <= n < states.len(),
        ensures
            self.sound(query, contents, states[n]),
        decreases n,
    {
        if n > 0 {
            self.lemma_runs(query, contents, states, n - 1);
            assert(self.steps_to(query, states[n - 1], states[n - 1 + 1]));
            self.lemma_steps(query, contents, states[n - 1], states[n]);
        }
    }

    /// A member has a hit only if a search of all of its bytes found none of the
    /// excluded terms, searches of its bytes found every required term, and a search
    /// of its bytes for the counted term has that hit. This holds of every state of a
    /// query, however it ends.
    pub proof fn only_members_that_meet_every_term_have_hits<P, G>(
        self,
        query: ExpressionQuery<P, G>,
        contents: spec_fn(int) -> Seq<u8>,
        states: Seq<ExpressionModel>,
        h: int,
    )
        requires
            carries_its_terms(*query.plan),
            crate::search::streaming::stepping::matcher_ok(self.seeker.search),
            self.loads(contents),
            query.directory@.members.len() <= usize::MAX,
            self.runs(query, states),
            forall|k: int| (#[trigger] contents(k)).len() <= u64::MAX,
            0 <= h < states.last().hits.len(),
        ensures
            ({
                let hit = states.last().hits[h];
                let bytes = contents(hit.ordinal as int);
                let syntax = query.plan.syntax;
                &&& forall|i: int|
                    0 <= i < syntax.exclusion_terms@.len() ==> self.found_nowhere(
                        (#[trigger] syntax.exclusion_terms@[i])@,
                        bytes,
                    )
                &&& forall|i: int|
                    0 <= i < syntax.conjunction_terms@.len() ==> self.found_somewhere(
                        (#[trigger] syntax.conjunction_terms@[i])@,
                        bytes,
                    )
                &&& self.found_at(syntax.primary_needle@, bytes, hit)
            }),
    {
        reveal(Hosts::met);
        self.lemma_runs(query, contents, states, states.len() - 1);
        let hit = states.last().hits[h];
        assert(self.met(
            *query.plan,
            contents(hit.ordinal as int),
            query.plan.patterns@.len() - 1,
        ));
    }

    /// Hits come member after member, and within a member in the order in which they
    /// were found, so that none comes twice.
    pub proof fn hits_come_in_order_and_none_twice<P, G>(
        self,
        query: ExpressionQuery<P, G>,
        contents: spec_fn(int) -> Seq<u8>,
        states: Seq<ExpressionModel>,
        a: int,
        b: int,
    )
        requires
            carries_its_terms(*query.plan),
            crate::search::streaming::stepping::matcher_ok(self.seeker.search),
            self.loads(contents),
            query.directory@.members.len() <= usize::MAX,
            self.runs(query, states),
            forall|k: int| (#[trigger] contents(k)).len() <= u64::MAX,
            0 <= a < b < states.last().hits.len(),
        ensures
            comes_before(states.last().hits[a], states.last().hits[b]),
    {
        self.lemma_runs(query, contents, states, states.len() - 1);
    }

    /// A query that ends complete leaves out no member without a reason: it was not
    /// saved, the filters or the index dropped it, it is no text, an excluded term was
    /// found in it, or all of it was searched for a required term in vain. Of every
    /// other member, the hits of a search of all of its bytes are among the query's.
    pub proof fn complete_queries_leave_out_nothing_unexplained<P, G>(
        self,
        query: ExpressionQuery<P, G>,
        contents: spec_fn(int) -> Seq<u8>,
        states: Seq<ExpressionModel>,
        k: int,
    )
        requires
            carries_its_terms(*query.plan),
            crate::search::streaming::stepping::matcher_ok(self.seeker.search),
            self.loads(contents),
            query.directory@.members.len() <= usize::MAX,
            self.runs(query, states),
            forall|k: int| (#[trigger] contents(k)).len() <= u64::MAX,
            states.last().core.state is Complete,
            0 <= k < query.directory@.members.len(),
        ensures
            self.settled(query, contents, k, states.last().hits),
    {
        self.lemma_runs(query, contents, states, states.len() - 1);
        assert(self.settled(query, contents, k, states.last().hits));
    }

    /// The searches of a host agree with what texts are in which bytes.
    pub open spec fn agrees(self, holds: spec_fn(Seq<char>, Seq<u8>) -> bool) -> bool {
        forall|needle: NeedleModel, text: Seq<char>, bytes: Seq<u8>, s: SearchModel|
            spells(needle, text) && concluded(s) && #[trigger] self.seeker.reaches(
                needle,
                bytes,
                s,
            ) ==> {
                &&& s.core.matches_seen > 0 ==> #[trigger] holds(text, bytes)
                &&& s.core.matches_seen == 0 && s.core.state is Complete ==> !holds(text, bytes)
            }
    }

    /// Where the host finds what is there, a complete query without filters and index
    /// has hits of a saved member of text exactly if the member holds no excluded term,
    /// every required term and the counted one.
    pub proof fn complete_queries_select_by_their_terms<P, G>(
        self,
        query: ExpressionQuery<P, G>,
        contents: spec_fn(int) -> Seq<u8>,
        holds: spec_fn(Seq<char>, Seq<u8>) -> bool,
        states: Seq<ExpressionModel>,
        k: int,
    )
        requires
            carries_its_terms(*query.plan),
            crate::search::streaming::stepping::matcher_ok(self.seeker.search),
            self.loads(contents),
            query.directory@.members.len() <= usize::MAX,
            self.runs(query, states),
            forall|k: int| (#[trigger] contents(k)).len() <= u64::MAX,
            self.agrees(holds),
            forall|path: Seq<u8>| !(#[trigger] (self.admits)(path, false)),
            query.index is None,
            states.last().core.state is Complete,
            0 <= k < query.directory@.members.len(),
            query.directory@.members[k].data is Captured,
            !self.no_text(contents(k)),
        ensures
            ({
                let syntax = query.plan.syntax;
                let bytes = contents(k);
                let hits = states.last().hits;
                (exists|h: int| 0 <= h < hits.len() && (#[trigger] hits[h]).ordinal == k) <==> {
                    &&& forall|i: int|
                        0 <= i < syntax.exclusion_terms@.len() ==> !holds(
                            (#[trigger] syntax.exclusion_terms@[i])@,
                            bytes,
                        )
                    &&& forall|i: int|
                        0 <= i < syntax.conjunction_terms@.len() ==> holds(
                            (#[trigger] syntax.conjunction_terms@[i])@,
                            bytes,
                        )
                    &&& holds(syntax.primary_needle@, bytes)
                }
            }),
    {
        reveal(Hosts::settled);
        let syntax = query.plan.syntax;
        let bytes = contents(k);
        let hits = states.last().hits;
        self.complete_queries_leave_out_nothing_unexplained(query, contents, states, k);
        if exists|h: int| 0 <= h < hits.len() && (#[trigger] hits[h]).ordinal == k {
            let h = choose|h: int| 0 <= h < hits.len() && (#[trigger] hits[h]).ordinal == k;
            self.only_members_that_meet_every_term_have_hits(query, contents, states, h);
            assert forall|i: int| 0 <= i < syntax.exclusion_terms@.len() implies !holds(
                (#[trigger] syntax.exclusion_terms@[i])@,
                bytes,
            ) by {
                self.lemma_agrees(holds, syntax.exclusion_terms@[i]@, bytes);
            }
            assert forall|i: int| 0 <= i < syntax.conjunction_terms@.len() implies holds(
                (#[trigger] syntax.conjunction_terms@[i])@,
                bytes,
            ) by {
                self.lemma_agrees(holds, syntax.conjunction_terms@[i]@, bytes);
            }
            self.lemma_found_at(syntax.primary_needle@, bytes, hits[h]);
            self.lemma_agrees(holds, syntax.primary_needle@, bytes);
        }
        if holds(syntax.primary_needle@, bytes) && (forall|i: int|
            0 <= i < syntax.exclusion_terms@.len() ==> !holds(
                (#[trigger] syntax.exclusion_terms@[i])@,
                bytes,
            )) && (forall|i: int|
            0 <= i < syntax.conjunction_terms@.len() ==> holds(
                (#[trigger] syntax.conjunction_terms@[i])@,
                bytes,
            )) {
            if self.unmet(*query.plan, bytes) {
                if exists|i: int|
                    0 <= i < syntax.exclusion_terms@.len() && self.found_somewhere(
                        (#[trigger] syntax.exclusion_terms@[i])@,
                        bytes,
                    ) {
                    let i = choose|i: int|
                        0 <= i < syntax.exclusion_terms@.len() && self.found_somewhere(
                            (#[trigger] syntax.exclusion_terms@[i])@,
                            bytes,
                        );
                    self.lemma_agrees(holds, syntax.exclusion_terms@[i]@, bytes);
                } else {
                    let i = choose|i: int|
                        0 <= i < syntax.conjunction_terms@.len() && self.found_nowhere(
                            (#[trigger] syntax.conjunction_terms@[i])@,
                            bytes,
                        );
                    self.lemma_agrees(holds, syntax.conjunction_terms@[i]@, bytes);
                }
            }
            assert(self.listed(*query.plan, bytes, k, hits));
            let (needle, s) = choose|needle: NeedleModel, s: SearchModel|
                {
                    &&& spells(needle, syntax.primary_needle@)
                    &&& #[trigger] self.seeker.reaches(needle, bytes, s)
                    &&& s.core.state is Complete
                    &&& lists_all(s, k, hits)
                };
            self.seeker.hits_are_seen(needle, bytes, s);
            assert(s.hits.len() > 0);
            assert(is_listed(s.hits[0].range, k, hits));
        }
    }

    proof fn lemma_agrees(
        self,
        holds: spec_fn(Seq<char>, Seq<u8>) -> bool,
        text: Seq<char>,
        bytes: Seq<u8>,
    )
        requires
            self.agrees(holds),
        ensures
            self.found_nowhere(text, bytes) ==> !holds(text, bytes),
            self.found_somewhere(text, bytes) ==> holds(text, bytes),
    {
    }

    proof fn lemma_found_at(self, text: Seq<char>, bytes: Seq<u8>, hit: ExpressionHit)
        requires
            self.found_at(text, bytes, hit),
            bytes.len() <= u64::MAX,
            crate::search::streaming::stepping::matcher_ok(self.seeker.search),
        ensures
            self.found_somewhere(text, bytes),
    {
        reveal(Hosts::found_at);
        let (needle, s, i) = choose|needle: NeedleModel, s: SearchModel, i: int|
            spells(needle, text) && #[trigger] self.seeker.reaches(needle, bytes, s) && concluded(s)
                && 0 <= i < s.hits.len() && (#[trigger] s.hits[i]).range == hit.range
                && s.hits[i].occurrence == hit.occurrence;
        self.seeker.hits_are_seen(needle, bytes, s);
    }
}

} // verus!
