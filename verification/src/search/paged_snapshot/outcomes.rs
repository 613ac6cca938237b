//! What a query over a saved snapshot reports of its members.
use vstd::prelude::*;

use super::query::{
    fresh_query, puts, query_advances, query_steps, searches_on, takes_up, EngineLimits, PagedModel,
    PagedQueryOptions, PagedQueryState,
};
use super::PagedSearchError;
use crate::identity::{ByteRange, QueryGeneration};
use crate::search::archive::{DirectoryModel, PagedSnapshotError};
use crate::search::member_scan::{member_replies, LoadedModel, VerifiedMember};
use crate::search::source::{SourceEncoding, SourceError, StreamError};
use crate::search::streaming::pursuits::{gives, Seeker};
use crate::search::streaming::report::{fresh_search, is_started, starts};
use crate::search::streaming::stepping::steps;
use crate::search::streaming::{
    ByteBatch, NeedleModel, SearchModel, StreamReadError, StreamReadState, StreamReadStep,
};

verus! {

/// A search of one member.
pub ghost struct Searched {
    pub ordinal: int,
    pub search: SearchModel,
}

/// The hits of searches, one search after the other.
pub open spec fn joined(found: Seq<Searched>) -> Seq<(int, ByteRange)>
    decreases found.len(),
{
    if found.len() == 0 {
        Seq::empty()
    } else {
        joined(found.drop_last()) + Seq::new(
            found.last().search.hits.len(),
            |i: int| (found.last().ordinal, found.last().search.hits[i].range),
        )
    }
}

/// The hosts of a query.
pub ghost struct Hosts<L, A, D, V, M, C> {
    pub load: L,
    pub reserve: A,
    pub seeker: Seeker<D, V, M, C>,
}

impl<
    L: FnMut(usize) -> Result<VerifiedMember, PagedSnapshotError>,
    A: FnOnce(u64) -> bool,
    D: FnMut(&Vec<u8>) -> SourceEncoding,
    V: FnMut(&Vec<u8>, usize, SourceEncoding, u64) -> Result<Option<u64>, SourceError>,
    M: FnMut(&Vec<u8>, &Vec<u8>, usize, usize, usize, usize) -> Result<ByteBatch, StreamError>,
    C: FnMut() -> bool,
> Hosts<L, A, D, V, M, C> {
    /// The host loads the member that it is asked for, with these bytes.
    pub open spec fn loads(self, contents: spec_fn(int) -> Seq<u8>) -> bool {
        &&& forall|k: usize, member: VerifiedMember| #[trigger]
            call_ensures(self.load, (k,), Ok::<VerifiedMember, PagedSnapshotError>(member))
                ==> member@.bytes == contents(k as int) && member.ordinal == k
        &&& forall|k: int| (#[trigger] contents(k)).len() <= usize::MAX
    }

    /// Bytes are not text, as far as a search of them tells.
    pub open spec fn no_text(self, needle: NeedleModel, bytes: Seq<u8>) -> bool {
        exists|s: SearchModel| #[trigger]
            self.seeker.reaches(needle, bytes, s) && s.core.state is UnsupportedText
    }

    /// These searches went through members in order, each to its end, but the last if
    /// the query was cut off in it.
    pub open spec fn searched(
        self,
        needle: NeedleModel,
        contents: spec_fn(int) -> Seq<u8>,
        found: Seq<Searched>,
        cut: bool,
    ) -> bool {
        &&& forall|i: int, j: int|
            0 <= i < j < found.len() ==> (#[trigger] found[i]).ordinal < (
            #[trigger] found[j]).ordinal
        &&& forall|i: int|
            0 <= i < found.len() ==> {
                &&& self.seeker.reaches(
                    needle,
                    contents((#[trigger] found[i]).ordinal),
                    found[i].search,
                )
                &&& found[i].search.core.state is Complete || cut && i == found.len() - 1
                    && found[i].search.core.state is Truncated
            }
    }

    /// The hits of a query are those of these searches.
    pub open spec fn holds_hits(self, m: PagedModel, found: Seq<Searched>) -> bool {
        &&& m.hits.len() == joined(found).len()
        &&& forall|h: int|
            0 <= h < m.hits.len() ==> {
                let hit = #[trigger] m.hits[h];
                &&& hit.ordinal == joined(found)[h].0
                &&& hit.range == joined(found)[h].1
                &&& hit.generation == m.core.options.generation
            }
    }

    /// What became of a member.
    #[verifier::opaque]
    pub open spec fn settled(
        self,
        directory: DirectoryModel,
        needle: NeedleModel,
        contents: spec_fn(int) -> Seq<u8>,
        k: int,
        found: Seq<Searched>,
    ) -> bool {
        ||| directory.members[k].data is Unavailable
        ||| self.no_text(needle, contents(k))
        ||| exists|i: int|
            0 <= i < found.len() && (#[trigger] found[i]).ordinal == k
                && found[i].search.core.state is Complete
    }

    /// What holds of a query wherever it stands.
    pub open spec fn sound(
        self,
        directory: DirectoryModel,
        needle: NeedleModel,
        contents: spec_fn(int) -> Seq<u8>,
        m: PagedModel,
        found: Seq<Searched>,
    ) -> bool {
        &&& self.searched(needle, contents, found, m.core.state is Truncated)
        &&& self.holds_hits(m, found)
        &&& m.core.next <= directory.members.len()
        &&& forall|i: int|
            0 <= i < found.len() ==> (#[trigger] found[i]).ordinal < m.core.next && (m.active
                is Some ==> found[i].ordinal < m.core.next - 1)
        &&& m.active matches Some((s, member)) ==> {
            &&& member.ordinal == m.core.next - 1
            &&& member.bytes == contents(member.ordinal as int)
            &&& self.seeker.reaches(needle, member.bytes, s)
            &&& m.core.state is Pending
        }
        &&& m.core.state is Pending || m.core.state is Complete ==> forall|k: int|
            0 <= k < m.core.next && !(m.active is Some && k == m.core.next - 1)
                ==> #[trigger] self.settled(directory, needle, contents, k, found)
        &&& m.core.state is Complete ==> m.core.next == directory.members.len()
    }

    /// The hits of a query are those of some searches, whatever becomes of it.
    pub open spec fn earned(
        self,
        needle: NeedleModel,
        contents: spec_fn(int) -> Seq<u8>,
        m: PagedModel,
    ) -> bool {
        exists|found: Seq<Searched>|
            #[trigger] self.searched(needle, contents, found, true) && self.holds_hits(m, found)
    }

    proof fn lemma_settled_more(
        self,
        directory: DirectoryModel,
        needle: NeedleModel,
        contents: spec_fn(int) -> Seq<u8>,
        k: int,
        found: Seq<Searched>,
        one: Searched,
    )
        requires
            self.settled(directory, needle, contents, k, found),
        ensures
            self.settled(directory, needle, contents, k, found.push(one)),
    {
        reveal(Hosts::settled);
        if exists|i: int|
            0 <= i < found.len() && (#[trigger] found[i]).ordinal == k
                && found[i].search.core.state is Complete {
            let i = choose|i: int|
                0 <= i < found.len() && (#[trigger] found[i]).ordinal == k
                    && found[i].search.core.state is Complete;
            assert(found.push(one)[i] == found[i]);
        }
    }

    /// The end of the search of a member.
    proof fn lemma_ended(
        self,
        directory: DirectoryModel,
        needle: NeedleModel,
        contents: spec_fn(int) -> Seq<u8>,
        m: PagedModel,
        found: Seq<Searched>,
        search: SearchModel,
        member: LoadedModel,
    ) -> (more: Seq<Searched>)
        requires
            self.sound(directory, needle, contents, m, found),
            m.active is Some,
            (m.active->Some_0).1 == member,
            self.seeker.reaches(needle, member.bytes, search),
        ensures
            m.ended(search, member).1 is Ok ==> self.sound(
                directory,
                needle,
                contents,
                m.ended(search, member).0,
                more,
            ),
            m.ended(search, member).1 is Err ==> m.ended(search, member).0.hits == m.hits && m.ended(
                search,
                member,
            ).0.core.options == m.core.options,
    {
        let k = m.core.next - 1;
        let (end, r) = m.ended(search, member);
        if search.core.state is Complete || search.core.state is Truncated {
            let one = Searched { ordinal: k, search };
            let more = found.push(one);
            let fresh = Seq::new(search.hits.len(), |i: int| m.hit_of(search, member, i));
            assert(more.drop_last() =~= found);
            assert(joined(more) == joined(found) + Seq::new(
                search.hits.len(),
                |i: int| (k, search.hits[i].range),
            ));
            assert(end.hits =~= m.hits + fresh);
            assert forall|h: int| 0 <= h < end.hits.len() implies ({
                let hit = #[trigger] end.hits[h];
                &&& hit.ordinal == joined(more)[h].0
                &&& hit.range == joined(more)[h].1
                &&& hit.generation == end.core.options.generation
            }) by {
                if h < m.hits.len() {
                    assert(end.hits[h] == m.hits[h]);
                } else {
                    assert(end.hits[h] == fresh[h - m.hits.len()]);
                }
            }
            assert forall|i: int| 0 <= i < more.len() implies ({
                &&& self.seeker.reaches(
                    needle,
                    contents((#[trigger] more[i]).ordinal),
                    more[i].search,
                )
                &&& more[i].search.core.state is Complete || end.core.state is Truncated && i
                    == more.len() - 1 && more[i].search.core.state is Truncated
            }) by {
                if i < found.len() {
                    assert(more[i] == found[i]);
                }
            }
            assert forall|i: int, j: int| 0 <= i < j < more.len() implies (
            #[trigger] more[i]).ordinal < (#[trigger] more[j]).ordinal by {
                assert(more[i] == found[i]);
                if j < found.len() {
                    assert(more[j] == found[j]);
                }
            }
            assert forall|i: int| 0 <= i < more.len() implies (#[trigger] more[i]).ordinal
                < end.core.next by {
                if i < found.len() {
                    assert(more[i] == found[i]);
                }
            }
            if search.core.state is Complete {
                assert forall|j: int| 0 <= j < end.core.next implies #[trigger] self.settled(
                    directory,
                    needle,
                    contents,
                    j,
                    more,
                ) by {
                    if j < k {
                        assert(self.settled(directory, needle, contents, j, found));
                        self.lemma_settled_more(directory, needle, contents, j, found, one);
                    } else {
                        reveal(Hosts::settled);
                        assert(more[found.len() as int].ordinal == j);
                    }
                }
            }
            more
        } else {
            if search.core.state is UnsupportedText {
                assert(self.settled(directory, needle, contents, k, found)) by {
                    reveal(Hosts::settled);
                    assert(self.no_text(needle, contents(k)));
                }
            }
            found
        }
    }

    proof fn lemma_searches_on(
        self,
        directory: DirectoryModel,
        needle: NeedleModel,
        contents: spec_fn(int) -> Seq<u8>,
        m: PagedModel,
        found: Seq<Searched>,
        step: StreamReadStep,
        end: PagedModel,
        r: Result<(), PagedSearchError>,
    ) -> (more: Seq<Searched>)
        requires
            self.sound(directory, needle, contents, m, found),
            m.active is Some,
            searches_on(
                m,
                needle,
                step,
                self.seeker.detect,
                self.seeker.check,
                self.seeker.search,
                self.seeker.canceled,
                end,
                r,
            ),
        ensures
            r is Ok ==> self.sound(directory, needle, contents, end, more),
            r is Err ==> end.hits == m.hits && end.core.options == m.core.options,
    {
        let (before, member) = m.active->0;
        let at = before.core.stats.bytes_read as int;
        let (after, said) = choose|
            after: SearchModel,
            said: Result<StreamReadState, StreamReadError>,
        |
            #[trigger] steps(
                before,
                needle,
                step,
                m.core.options.generation,
                member_replies(member.bytes, at),
                self.seeker.detect,
                self.seeker.check,
                self.seeker.search,
                self.seeker.canceled,
                after,
                said,
            ) && match said {
                Err(e) => end == (PagedModel { active: None, ..m }) && r == Err::<
                    (),
                    PagedSearchError,
                >(PagedSearchError::Search(e)),
                Ok(state) => {
                    let counted = m.scanned(
                        after.core.stats.scanned_bytes.wrapping_sub(
                            before.core.stats.scanned_bytes,
                        ),
                    );
                    if state is Pending {
                        end == (PagedModel { active: Some((after, member)), ..counted }) && r is Ok
                    } else {
                        (end, r) == counted.ended(after, member)
                    }
                },
            };
        if said is Ok {
            assert(gives(member.bytes, at, member_replies(member.bytes, at)));
            assert(self.seeker.stepped(needle, member.bytes, before, after));
            self.seeker.lemma_reaches(needle, member.bytes, before, after);
            let counted = m.scanned(
                after.core.stats.scanned_bytes.wrapping_sub(before.core.stats.scanned_bytes),
            );
            assert(self.sound(directory, needle, contents, counted, found));
            if said->Ok_0 is Pending {
                found
            } else {
                self.lemma_ended(directory, needle, contents, counted, found, after, member)
            }
        } else {
            found
        }
    }

    proof fn lemma_takes_up(
        self,
        directory: DirectoryModel,
        needle: NeedleModel,
        contents: spec_fn(int) -> Seq<u8>,
        m: PagedModel,
        found: Seq<Searched>,
        end: PagedModel,
        r: Result<(), PagedSearchError>,
    )
        requires
            self.sound(directory, needle, contents, m, found),
            self.loads(contents),
            directory.members.len() <= usize::MAX,
            m.active is None,
            m.core.state is Pending,
            m.core.options.max_matches <= 4096,
            m.hits.len() <= m.core.options.max_matches,
            takes_up(
                m,
                directory,
                needle,
                self.load,
                self.reserve,
                self.seeker.detect,
                self.seeker.check,
                end,
                r,
            ),
        ensures
            r is Ok ==> self.sound(directory, needle, contents, end, found),
            end.hits == m.hits && end.core.options == m.core.options,
    {
        if m.core.next < directory.members.len() {
            let k = m.core.next;
            let next = m.visited();
            if directory.members[k as int].data is Unavailable {
                assert(self.settled(directory, needle, contents, k as int, found)) by {
                    reveal(Hosts::settled);
                }
            } else {
                let answer = choose|answer: Result<VerifiedMember, PagedSnapshotError>|
                    #[trigger] call_ensures(self.load, (k,), answer) && match answer {
                        Err(e) => end == next && r == Err::<(), PagedSearchError>(
                            PagedSearchError::Archive(e),
                        ),
                        Ok(member) => puts(
                            next,
                            member@,
                            k as int,
                            needle,
                            self.reserve,
                            self.seeker.detect,
                            self.seeker.check,
                            end,
                            r,
                        ),
                    };
                if let Ok(member) = answer {
                    assert(member@.bytes == contents(k as int));
                    let length = member@.bytes.len() as usize;
                    let ready = next.loaded(length);
                    let begun = choose|begun: Result<SearchModel, StreamReadError>|
                        #[trigger] is_started(
                            begun,
                            ready.request(k as int),
                            length as u64,
                            needle,
                            ready.search_options(length),
                            next.core.limits.needle_bytes as int,
                            self.reserve,
                            self.seeker.detect,
                            self.seeker.check,
                        ) && match begun {
                            Err(e) => end == ready && r == Err::<(), PagedSearchError>(
                                PagedSearchError::Search(e),
                            ),
                            Ok(search) => end == (PagedModel {
                                active: Some((search, member@)),
                                ..ready
                            }) && r is Ok,
                        };
                    if let Ok(search) = begun {
                        assert(starts(
                            Ok::<SearchModel, StreamReadError>(search),
                            fresh_search(
                                ready.request(k as int),
                                member@.bytes.len() as u64,
                                needle,
                                ready.search_options(length),
                            ),
                            self.seeker.detect,
                            self.seeker.check,
                        ));
                        assert(self.seeker.begun(needle, member@.bytes, search));
                        self.seeker.lemma_reaches(needle, member@.bytes, search, search);
                    }
                }
            }
        }
    }

    /// A step of a query leads from one state to another.
    pub open spec fn steps_to(
        self,
        directory: DirectoryModel,
        needle: NeedleModel,
        m: PagedModel,
        end: PagedModel,
    ) -> bool {
        exists|
            step: StreamReadStep,
            active: QueryGeneration,
            r: Result<PagedQueryState, PagedSearchError>,
        |
            #[trigger] query_steps(
                m,
                directory,
                needle,
                step,
                active,
                self.load,
                self.reserve,
                self.seeker.detect,
                self.seeker.check,
                self.seeker.search,
                self.seeker.canceled,
                end,
                r,
            )
    }

    /// The states of a query, from its start on.
    pub open spec fn runs(
        self,
        directory: DirectoryModel,
        needle: NeedleModel,
        states: Seq<PagedModel>,
    ) -> bool {
        &&& states.len() > 0
        &&& exists|options: PagedQueryOptions, limits: EngineLimits|
            states[0] == #[trigger] fresh_query(options, limits) && options.max_matches <= 4096
        &&& forall|i: int|
            0 <= i < states.len() ==> (#[trigger] states[i]).hits.len()
                <= states[i].core.options.max_matches
        &&& forall|i: int|
            0 <= i < states.len() - 1 ==> self.steps_to(
                directory,
                needle,
                #[trigger] states[i],
                states[i + 1],
            )
    }

    /// What is known of a query in any of its states.
    pub open spec fn accounts(
        self,
        directory: DirectoryModel,
        needle: NeedleModel,
        contents: spec_fn(int) -> Seq<u8>,
        m: PagedModel,
    ) -> bool {
        &&& m.core.options.max_matches <= 4096
        &&& if m.core.state is Canceled || m.core.state is Failed {
            self.earned(needle, contents, m)
        } else {
            exists|found: Seq<Searched>|
                #[trigger] self.sound(directory, needle, contents, m, found)
        }
    }

    proof fn lemma_steps(
        self,
        directory: DirectoryModel,
        needle: NeedleModel,
        contents: spec_fn(int) -> Seq<u8>,
        m: PagedModel,
        end: PagedModel,
    )
        requires
            self.loads(contents),
            directory.members.len() <= usize::MAX,
            self.accounts(directory, needle, contents, m),
            m.hits.len() <= m.core.options.max_matches,
            self.steps_to(directory, needle, m, end),
        ensures
            self.accounts(directory, needle, contents, end),
    {
        let (step, active, r) = choose|
            step: StreamReadStep,
            active: QueryGeneration,
            r: Result<PagedQueryState, PagedSearchError>,
        |
            #[trigger] query_steps(
                m,
                directory,
                needle,
                step,
                active,
                self.load,
                self.reserve,
                self.seeker.detect,
                self.seeker.check,
                self.seeker.search,
                self.seeker.canceled,
                end,
                r,
            );
        let fresh = m.cleared();
        if m.core.state is Canceled || m.core.state is Failed {
            let found = choose|found: Seq<Searched>|
                #[trigger] self.searched(needle, contents, found, true) && self.holds_hits(
                    m,
                    found,
                );
            assert(self.holds_hits(end, found));
        } else {
            let found = choose|found: Seq<Searched>| #[trigger]
                self.sound(directory, needle, contents, m, found);
            assert(self.sound(directory, needle, contents, fresh, found));
            assert(self.searched(needle, contents, found, true));
            if end.hits == m.hits && end.core.options == m.core.options {
                assert(self.holds_hits(end, found));
            }
            if end == fresh || end == fresh.stopped(PagedQueryState::Canceled) {
            } else {
                let (after, ok) = choose|after: PagedModel, ok: Result<(), PagedSearchError>|
                    #[trigger] query_advances(
                        fresh,
                        directory,
                        needle,
                        step,
                        self.load,
                        self.reserve,
                        self.seeker.detect,
                        self.seeker.check,
                        self.seeker.search,
                        self.seeker.canceled,
                        after,
                        ok,
                    ) && match ok {
                        Ok(_) => {
                            ||| end == after.stopped(PagedQueryState::Canceled) && (r matches Err(e)
                                && e == PagedSearchError::Canceled) && call_ensures(
                                self.seeker.canceled,
                                (),
                                true,
                            )
                            ||| end == after && (r matches Ok(state) && state == after.core.state)
                        },
                        Err(e) => end == after.stopped(super::query::failed_state(e)) && (
                        r matches Err(f) && f == e),
                    };
                let more = self.lemma_advances(
                    directory,
                    needle,
                    contents,
                    fresh,
                    found,
                    step,
                    after,
                    ok,
                );
                if ok is Ok {
                    assert(self.sound(directory, needle, contents, after, more));
                    assert(self.searched(needle, contents, more, true));
                    assert(self.holds_hits(end, more));
                    if end == after {
                        assert(self.sound(directory, needle, contents, end, more));
                    }
                } else {
                    assert(self.holds_hits(end, found));
                }
            }
        }
    }

    proof fn lemma_advances(
        self,
        directory: DirectoryModel,
        needle: NeedleModel,
        contents: spec_fn(int) -> Seq<u8>,
        m: PagedModel,
        found: Seq<Searched>,
        step: StreamReadStep,
        end: PagedModel,
        r: Result<(), PagedSearchError>,
    ) -> (more: Seq<Searched>)
        requires
            self.loads(contents),
            directory.members.len() <= usize::MAX,
            self.sound(directory, needle, contents, m, found),
            m.core.state is Pending,
            m.core.options.max_matches <= 4096,
            m.hits.len() <= m.core.options.max_matches,
            query_advances(
                m,
                directory,
                needle,
                step,
                self.load,
                self.reserve,
                self.seeker.detect,
                self.seeker.check,
                self.seeker.search,
                self.seeker.canceled,
                end,
                r,
            ),
        ensures
            r is Ok ==> self.sound(directory, needle, contents, end, more),
            r is Err ==> end.hits == m.hits,
            end.core.options == m.core.options,
    {
        if m.active is Some {
            self.lemma_searches_on(directory, needle, contents, m, found, step, end, r)
        } else if (r is Err || end.active is None) && takes_up(
            m,
            directory,
            needle,
            self.load,
            self.reserve,
            self.seeker.detect,
            self.seeker.check,
            end,
            r,
        ) {
            self.lemma_takes_up(directory, needle, contents, m, found, end, r);
            found
        } else {
            let (taken, ok) = choose|taken: PagedModel, ok: Result<(), PagedSearchError>|
                ok is Ok && taken.active is Some && #[trigger] takes_up(
                    m,
                    directory,
                    needle,
                    self.load,
                    self.reserve,
                    self.seeker.detect,
                    self.seeker.check,
                    taken,
                    ok,
                ) && searches_on(
                    taken,
                    needle,
                    step,
                    self.seeker.detect,
                    self.seeker.check,
                    self.seeker.search,
                    self.seeker.canceled,
                    end,
                    r,
                );
            self.lemma_takes_up(directory, needle, contents, m, found, taken, ok);
            self.lemma_searches_on(directory, needle, contents, taken, found, step, end, r)
        }
    }

    proof fn lemma_runs(
        self,
        directory: DirectoryModel,
        needle: NeedleModel,
        contents: spec_fn(int) -> Seq<u8>,
        states: Seq<PagedModel>,
        n: int,
    )
        requires
            self.loads(contents),
            directory.members.len() <= usize::MAX,
            self.runs(directory, needle, states),
            0 <= n < states.len(),
        ensures
            self.accounts(directory, needle, contents, states[n]),
        decreases n,
    {
        if n == 0 {
            let none = Seq::<Searched>::empty();
            assert(joined(none) =~= Seq::<(int, ByteRange)>::empty());
            assert(self.sound(directory, needle, contents, states[0], none));
        } else {
            self.lemma_runs(directory, needle, contents, states, n - 1);
            assert(self.steps_to(directory, needle, states[n - 1], states[n - 1 + 1]));
            self.lemma_steps(directory, needle, contents, states[n - 1], states[n]);
        }
    }

    /// The hits of a query are exactly those of searches of members for its needle,
    /// member after member, none twice and none left out. If it ends complete, every
    /// member was searched to its end that was saved and is text.
    pub proof fn queries_report_what_searches_of_members_find(
        self,
        directory: DirectoryModel,
        needle: NeedleModel,
        contents: spec_fn(int) -> Seq<u8>,
        states: Seq<PagedModel>,
    )
        requires
            self.loads(contents),
            directory.members.len() <= usize::MAX,
            self.runs(directory, needle, states),
        ensures
            exists|found: Seq<Searched>|
                {
                    &&& #[trigger] self.searched(needle, contents, found, true)
                    &&& self.holds_hits(states.last(), found)
                    &&& states.last().core.state is Complete ==> forall|k: int|
                        0 <= k < directory.members.len() && directory.members[k].data is Captured
                            ==> #[trigger] self.searched_or_no_text(needle, contents, k, found)
                },
    {
        let m = states.last();
        self.lemma_runs(directory, needle, contents, states, states.len() - 1);
        if m.core.state is Canceled || m.core.state is Failed {
            let found = choose|found: Seq<Searched>|
                #[trigger] self.searched(needle, contents, found, true) && self.holds_hits(
                    m,
                    found,
                );
            assert(self.holds_hits(m, found));
        } else {
            let found = choose|found: Seq<Searched>| #[trigger]
                self.sound(directory, needle, contents, m, found);
            assert(self.searched(needle, contents, found, true));
            if m.core.state is Complete {
                assert forall|k: int|
                    0 <= k < directory.members.len() && directory.members[k].data
                        is Captured implies #[trigger] self.searched_or_no_text(
                    needle,
                    contents,
                    k,
                    found,
                ) by {
                    assert(m.active is None || k != m.core.next - 1);
                    assert(self.settled(directory, needle, contents, k, found));
                    reveal(Hosts::settled);
                }
            }
        }
    }

    /// A member was searched to its end, or is no text.
    pub open spec fn searched_or_no_text(
        self,
        needle: NeedleModel,
        contents: spec_fn(int) -> Seq<u8>,
        k: int,
        found: Seq<Searched>,
    ) -> bool {
        ||| self.no_text(needle, contents(k))
        ||| exists|i: int|
            0 <= i < found.len() && (#[trigger] found[i]).ordinal == k
                && found[i].search.core.state is Complete
    }
}

} // verus!
