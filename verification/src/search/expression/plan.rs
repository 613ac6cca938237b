//! The terms of a query, ready for the matcher.
use vstd::prelude::*;
use vstd::utf8::{decode_utf8, encode_utf8, valid_utf8};

use crate::capture::text_len;
use crate::envelope::{put_raw, text_from_utf8};
use crate::identity::ArenaOwnerId;
use crate::model::{group_views, views};
use crate::search::expression::{ExpressionError, QueryError};
use crate::search::streaming::{
    needle_charge, needle_of, units_from, NeedleModel, StreamReadError, StreamingNeedle,
};

verus! {

broadcast use group_views;

/// Bytes charged for parsing a query and keeping it.
pub const PLAN_CHARGE: u64 = 131_072;

/// What the host's parser makes of a query. The filters are the host's to read:
/// `P` holds those on paths, `G` those on languages.
#[derive(Debug)]
pub struct ParsedQuery<P = (), G = ()> {
    pub primary_needle: String,
    pub exclusion_terms: Vec<String>,
    pub conjunction_terms: Vec<String>,
    pub path_filters: P,
    pub lang_filters: G,
}

/// Whether a path's text, or the label of one that is no text, is this key.
pub open spec fn key_of<E: FnMut(&Vec<u8>) -> String>(
    escape: E,
    native: &Vec<u8>,
    key: Seq<char>,
) -> bool {
    if valid_utf8(native@) {
        key == decode_utf8(native@)
    } else {
        exists|label: String| #[trigger] call_ensures(escape, (native,), label) && key == label@
    }
}

/// Whether the filters may say this of a key: first those on paths, and those on
/// languages where the former let it pass.
pub open spec fn key_passes<
    P,
    G,
    F: FnMut(&str, &P) -> bool,
    H: FnMut(&str, &G) -> bool,
>(syntax: ParsedQuery<P, G>, paths: F, langs: H, key: &str, r: bool) -> bool {
    ||| call_ensures(paths, (key, &syntax.path_filters), false) && !r
    ||| call_ensures(paths, (key, &syntax.path_filters), true) && call_ensures(
        langs,
        (key, &syntax.lang_filters),
        r,
    )
}

/// Whether the filters of a query may say this of a path.
pub open spec fn passes<
    P,
    G,
    E: FnMut(&Vec<u8>) -> String,
    F: FnMut(&str, &P) -> bool,
    H: FnMut(&str, &G) -> bool,
>(
    syntax: ParsedQuery<P, G>,
    escape: E,
    paths: F,
    langs: H,
    native: &Vec<u8>,
    r: bool,
) -> bool {
    exists|key: &str|
        #[trigger] key_passes(syntax, paths, langs, key, r) && key_of(escape, native, key@)
}

/// What the filters of a query may say of a path's bytes.
pub open spec fn admission<
    P,
    G,
    E: FnMut(&Vec<u8>) -> String,
    F: FnMut(&str, &P) -> bool,
    H: FnMut(&str, &G) -> bool,
>(syntax: ParsedQuery<P, G>, escape: E, paths: F, langs: H) -> spec_fn(Seq<u8>, bool) -> bool {
    |path: Seq<u8>, admitted: bool|
        exists|native: &Vec<u8>|
            native@ == path && #[trigger] passes(syntax, escape, paths, langs, native, admitted)
}

impl<P, G> ParsedQuery<P, G> {
    /// All terms, in the order in which they are looked for: those that must be
    /// missing, those that must be there, and the one whose occurrences count.
    pub open spec fn terms(self) -> Seq<Seq<char>> {
        views(self.exclusion_terms@) + views(self.conjunction_terms@) + seq![
            self.primary_needle@,
        ]
    }
}

/// A query whose terms the matcher may be given.
#[derive(Debug)]
pub struct ExpressionPlan<P = (), G = ()> {
    pub owner: ArenaOwnerId,
    pub syntax: ParsedQuery<P, G>,
    pub patterns: Vec<StreamingNeedle>,
}

/// Whether a term may become this literal, with memory from an allocation.
pub open spec fn is_pattern<A: Fn(u64, u64) -> bool>(
    r: Result<NeedleModel, StreamReadError>,
    owner: ArenaOwnerId,
    term: Seq<char>,
    limit: int,
    id: u64,
    reserve: A,
) -> bool {
    exists|granted: bool|
        #[trigger] pattern_grant(term, limit, id, reserve, granted) && r == needle_of(
            owner,
            encode_utf8(term),
            Some(units_from(term, 0)),
            limit,
            granted,
        )
}

/// Whether memory was granted or refused for a term, if any was asked for.
pub open spec fn pattern_grant<A: Fn(u64, u64) -> bool>(
    term: Seq<char>,
    limit: int,
    id: u64,
    reserve: A,
    granted: bool,
) -> bool {
    let bytes = text_len(term) as int;
    let units = units_from(term, 0).len() as int;
    0 < bytes <= limit && units * 2 <= limit && needle_charge(bytes, units) <= u64::MAX
        ==> call_ensures(reserve, (id, needle_charge(bytes, units) as u64), granted)
}

/// Whether these are the first literals of the terms.
pub open spec fn are_patterns<A: Fn(u64, u64) -> bool>(
    found: Seq<NeedleModel>,
    owner: ArenaOwnerId,
    terms: Seq<Seq<char>>,
    limit: int,
    first: u64,
    reserve: A,
) -> bool {
    found.len() <= terms.len() && forall|i: int|
        0 <= i < found.len() ==> is_pattern(
            Ok(#[trigger] found[i]),
            owner,
            terms[i],
            limit,
            (first + i) as u64,
            reserve,
        )
}

/// Whether an error is that of a term.
pub open spec fn fails_at<A: Fn(u64, u64) -> bool>(
    error: ExpressionError,
    owner: ArenaOwnerId,
    terms: Seq<Seq<char>>,
    limit: int,
    first: u64,
    reserve: A,
) -> bool {
    error matches ExpressionError::Pattern(why) && exists|i: int|
        0 <= i < terms.len() && is_pattern(
            Err(why),
            owner,
            #[trigger] terms[i],
            limit,
            (first + i) as u64,
            reserve,
        )
}

/// Whether the terms of a parsed query may be made ready so.
pub open spec fn is_ready<P, G, A: Fn(u64, u64) -> bool>(
    r: Result<ExpressionPlan<P, G>, ExpressionError>,
    owner: ArenaOwnerId,
    syntax: ParsedQuery<P, G>,
    limit: int,
    allocation: u64,
    first: u64,
    reserve: A,
) -> bool {
    let terms = syntax.terms();
    let last = first + terms.len() - 1;
    if last > u64::MAX {
        r matches Err(e) && e == ExpressionError::IdentityExhausted
    } else if first <= allocation <= last {
        r matches Err(e) && e == ExpressionError::InvalidLimits
    } else {
        match r {
            Ok(plan) => plan.owner == owner && plan.syntax == syntax && plan.patterns@.len()
                == terms.len() && are_patterns(
                views(plan.patterns@),
                owner,
                terms,
                limit,
                first,
                reserve,
            ),
            Err(e) => fails_at(e, owner, terms, limit, first, reserve),
        }
    }
}

/// Whether a query may be parsed and made ready so.
pub open spec fn is_plan<
    P,
    G,
    A: Fn(u64, u64) -> bool,
    Q: FnOnce(&str) -> Result<ParsedQuery<P, G>, QueryError>,
>(
    r: Result<ExpressionPlan<P, G>, ExpressionError>,
    owner: ArenaOwnerId,
    query: &str,
    max_query_len: int,
    limit: int,
    allocation: u64,
    first: u64,
    reserve: A,
    parse: Q,
) -> bool {
    if text_len(query@) > max_query_len {
        r matches Err(e) && e == ExpressionError::Syntax(QueryError::NeedleTooLong)
    } else {
        ||| call_ensures(reserve, (allocation, PLAN_CHARGE), false) && (r matches Err(e) && e
            == ExpressionError::ResourceDenied)
        ||| call_ensures(reserve, (allocation, PLAN_CHARGE), true) && exists|
            parsed: Result<ParsedQuery<P, G>, QueryError>,
        |
            #[trigger] call_ensures(parse, (query,), parsed) && match parsed {
                Err(e) => r matches Err(f) && f == ExpressionError::Syntax(e),
                Ok(syntax) => is_ready(r, owner, syntax, limit, allocation, first, reserve),
            }
    }
}

impl<P, G> ExpressionPlan<P, G> {
    pub open spec fn wf(self) -> bool {
        self.patterns@.len() == self.syntax.terms().len()
    }

    /// The term at a position is one that must be there.
    pub open spec fn requires_term(self, term: int) -> bool {
        term >= self.syntax.exclusion_terms@.len()
    }

    /// Parses a query and makes its terms ready. The terms use allocations from
    /// `first_pattern` on.
    pub fn parse<
        A: Fn(u64, u64) -> bool,
        Q: FnOnce(&str) -> Result<ParsedQuery<P, G>, QueryError>,
    >(
        owner: ArenaOwnerId,
        query: &str,
        max_query_len: usize,
        limit: usize,
        allocation: u64,
        first_pattern: u64,
        reserve: A,
        parse: Q,
    ) -> (r: Result<Self, ExpressionError>)
        requires
            forall|id: u64, charge: u64| call_requires(reserve, (id, charge)),
            forall|text: &str| call_requires(parse, (text,)),
        ensures
            r matches Ok(plan) ==> plan.wf(),
            is_plan(
                r,
                owner,
                query,
                max_query_len as int,
                limit as int,
                allocation,
                first_pattern,
                reserve,
                parse,
            ),
    {
        if query.as_bytes().len() > max_query_len {
            return Err(ExpressionError::Syntax(QueryError::NeedleTooLong));
        }
        if !reserve(allocation, PLAN_CHARGE) {
            return Err(ExpressionError::ResourceDenied);
        }
        assert(call_ensures(reserve, (allocation, PLAN_CHARGE), true));
        let parsed = parse(query);
        assert(call_ensures(parse, (query,), parsed));
        let syntax = match parsed {
            Ok(syntax) => syntax,
            Err(e) => {
                return Err(ExpressionError::Syntax(e));
            },
        };
        Self::ready(owner, syntax, limit, allocation, first_pattern, &reserve)
    }

    fn ready<A: Fn(u64, u64) -> bool>(
        owner: ArenaOwnerId,
        syntax: ParsedQuery<P, G>,
        limit: usize,
        allocation: u64,
        first_pattern: u64,
        reserve: &A,
    ) -> (r: Result<Self, ExpressionError>)
        requires
            forall|id: u64, charge: u64| call_requires(*reserve, (id, charge)),
        ensures
            r matches Ok(plan) ==> plan.wf(),
            is_ready(r, owner, syntax, limit as int, allocation, first_pattern, *reserve),
    {
        let ghost terms = syntax.terms();
        let last: u128 = first_pattern as u128 + syntax.exclusion_terms.len() as u128
            + syntax.conjunction_terms.len() as u128;
        if last > u64::MAX as u128 {
            return Err(ExpressionError::IdentityExhausted);
        }
        if first_pattern <= allocation && allocation <= last as u64 {
            return Err(ExpressionError::InvalidLimits);
        }
        let mut patterns: Vec<StreamingNeedle> = Vec::new();
        assert(views(patterns@) =~= Seq::<NeedleModel>::empty());
        match Self::add_terms(
            &mut patterns,
            &syntax.exclusion_terms,
            owner,
            limit,
            first_pattern,
            reserve,
            Ghost(terms),
        ) {
            Ok(()) => {},
            Err(e) => {
                return Err(e);
            },
        }
        match Self::add_terms(
            &mut patterns,
            &syntax.conjunction_terms,
            owner,
            limit,
            first_pattern,
            reserve,
            Ghost(terms),
        ) {
            Ok(()) => {},
            Err(e) => {
                return Err(e);
            },
        }
        match Self::add_term(
            &mut patterns,
            &syntax.primary_needle,
            owner,
            limit,
            first_pattern,
            reserve,
            Ghost(terms),
        ) {
            Ok(()) => {},
            Err(e) => {
                return Err(e);
            },
        }
        Ok(ExpressionPlan { owner, syntax, patterns })
    }

    /// Makes the terms of a list ready.
    fn add_terms<A: Fn(u64, u64) -> bool>(
        patterns: &mut Vec<StreamingNeedle>,
        list: &Vec<String>,
        owner: ArenaOwnerId,
        limit: usize,
        first: u64,
        reserve: &A,
        Ghost(terms): Ghost<Seq<Seq<char>>>,
    ) -> (r: Result<(), ExpressionError>)
        requires
            forall|id: u64, charge: u64| call_requires(*reserve, (id, charge)),
            first + terms.len() <= u64::MAX + 1,
            old(patterns)@.len() + list@.len() <= terms.len(),
            forall|k: int|
                0 <= k < list@.len() ==> terms[old(patterns)@.len() + k] == (#[trigger] list@[k])@,
            are_patterns(views(old(patterns)@), owner, terms, limit as int, first, *reserve),
        ensures
            match r {
                Ok(()) => final(patterns)@.len() == old(patterns)@.len() + list@.len()
                    && are_patterns(
                    views(final(patterns)@),
                    owner,
                    terms,
                    limit as int,
                    first,
                    *reserve,
                ),
                Err(e) => fails_at(e, owner, terms, limit as int, first, *reserve),
            },
    {
        let mut i: usize = 0;
        while i < list.len()
            invariant
                i <= list@.len(),
                patterns@.len() == old(patterns)@.len() + i,
                first + terms.len() <= u64::MAX + 1,
                old(patterns)@.len() + list@.len() <= terms.len(),
                forall|k: int|
                    0 <= k < list@.len() ==> terms[old(patterns)@.len() + k] == (
                    #[trigger] list@[k])@,
                forall|id: u64, charge: u64| call_requires(*reserve, (id, charge)),
                are_patterns(views(patterns@), owner, terms, limit as int, first, *reserve),
            decreases list.len() - i,
        {
            match Self::add_term(
                patterns,
                &list[i],
                owner,
                limit,
                first,
                reserve,
                Ghost(terms),
            ) {
                Ok(()) => {},
                Err(e) => {
                    return Err(e);
                },
            }
            i = i + 1;
        }
        Ok(())
    }

    /// Makes one term ready.
    fn add_term<A: Fn(u64, u64) -> bool>(
        patterns: &mut Vec<StreamingNeedle>,
        term: &String,
        owner: ArenaOwnerId,
        limit: usize,
        first: u64,
        reserve: &A,
        Ghost(terms): Ghost<Seq<Seq<char>>>,
    ) -> (r: Result<(), ExpressionError>)
        requires
            forall|id: u64, charge: u64| call_requires(*reserve, (id, charge)),
            first + terms.len() <= u64::MAX + 1,
            old(patterns)@.len() < terms.len(),
            terms[old(patterns)@.len() as int] == term@,
            are_patterns(views(old(patterns)@), owner, terms, limit as int, first, *reserve),
        ensures
            match r {
                Ok(()) => final(patterns)@.len() == old(patterns)@.len() + 1 && are_patterns(
                    views(final(patterns)@),
                    owner,
                    terms,
                    limit as int,
                    first,
                    *reserve,
                ),
                Err(e) => fails_at(e, owner, terms, limit as int, first, *reserve),
            },
    {
        let id: u64 = first + patterns.len() as u64;
        let ask = |charge: u64| -> (granted: bool)
            ensures
                call_ensures(*reserve, (id, charge), granted),
            { reserve(id, charge) };
        let made = StreamingNeedle::text(owner, term.as_str(), limit, ask);
        proof {
            lemma_pattern(made, owner, term@, limit as int, id, *reserve, ask);
        }
        match made {
            Ok(pattern) => {
                let ghost earlier = views(patterns@);
                patterns.push(pattern);
                assert forall|k: int| 0 <= k < views(patterns@).len() implies is_pattern(
                    Ok(#[trigger] views(patterns@)[k]),
                    owner,
                    terms[k],
                    limit as int,
                    (first + k) as u64,
                    *reserve,
                ) by {
                    if k < earlier.len() {
                        assert(views(patterns@)[k] == earlier[k]);
                    }
                }
                Ok(())
            },
            Err(e) => {
                assert(is_pattern(
                    Err(e),
                    owner,
                    terms[patterns@.len() as int],
                    limit as int,
                    (first + patterns@.len()) as u64,
                    *reserve,
                ));
                Err(ExpressionError::Pattern(e))
            },
        }
    }

    pub fn syntax(&self) -> (r: &ParsedQuery<P, G>)
        ensures
            *r == self.syntax,
    {
        &self.syntax
    }

    pub fn owner(&self) -> (r: ArenaOwnerId)
        ensures
            r == self.owner,
    {
        self.owner
    }

    /// The position of the term whose occurrences count.
    pub fn primary(&self) -> (r: usize)
        requires
            self.wf(),
        ensures
            r == self.patterns@.len() - 1,
    {
        self.patterns.len() - 1
    }

    /// Whether the term at a position must be there.
    pub fn required(&self, term: usize) -> (r: bool)
        ensures
            r == self.requires_term(term as int),
    {
        term >= self.syntax.exclusion_terms.len()
    }

    /// Whether a path passes the plan's filters. They see the path's text, or a
    /// label where it is no text; such labels are keys of filters only.
    pub fn admits<
        E: FnMut(&Vec<u8>) -> String,
        F: FnMut(&str, &P) -> bool,
        H: FnMut(&str, &G) -> bool,
    >(&self, native: &Vec<u8>, escape: &mut E, paths: &mut F, langs: &mut H) -> (r: bool)
        requires
            forall|path: &Vec<u8>| call_requires(*old(escape), (path,)),
            forall|key: &str, filters: &P| call_requires(*old(paths), (key, filters)),
            forall|key: &str, filters: &G| call_requires(*old(langs), (key, filters)),
        ensures
            *final(escape) == *old(escape),
            *final(paths) == *old(paths),
            *final(langs) == *old(langs),
            passes(self.syntax, *old(escape), *old(paths), *old(langs), native, r),
    {
        let mut copy: Vec<u8> = Vec::new();
        put_raw(&mut copy, native.as_slice());
        assert(copy@ =~= native@);
        match text_from_utf8(copy) {
            Some(text) => {
                let r = self.admits_key(text.as_str(), paths, langs);
                assert(key_of(*old(escape), native, text@));
                r
            },
            None => {
                let label = escape(native);
                assert(call_ensures(*old(escape), (native,), label));
                assert(key_of(*old(escape), native, label@));
                self.admits_key(label.as_str(), paths, langs)
            },
        }
    }

    /// Whether a key passes the plan's filters.
    fn admits_key<F: FnMut(&str, &P) -> bool, H: FnMut(&str, &G) -> bool>(
        &self,
        key: &str,
        paths: &mut F,
        langs: &mut H,
    ) -> (r: bool)
        requires
            forall|key: &str, filters: &P| call_requires(*old(paths), (key, filters)),
            forall|key: &str, filters: &G| call_requires(*old(langs), (key, filters)),
        ensures
            *final(paths) == *old(paths),
            *final(langs) == *old(langs),
            key_passes(self.syntax, *old(paths), *old(langs), key, r),
    {
        paths(key, &self.syntax.path_filters) && langs(key, &self.syntax.lang_filters)
    }
}

/// A literal made with memory from an allocation is one of that allocation.
proof fn lemma_pattern<A: Fn(u64, u64) -> bool, B: FnOnce(u64) -> bool>(
    r: Result<StreamingNeedle, StreamReadError>,
    owner: ArenaOwnerId,
    term: Seq<char>,
    limit: int,
    id: u64,
    reserve: A,
    ask: B,
)
    requires
        forall|charge: u64, granted: bool|
            #[trigger] call_ensures(ask, (charge,), granted) ==> call_ensures(
                reserve,
                (id, charge),
                granted,
            ),
        exists|granted: bool|
            #[trigger] crate::search::streaming::needle_grant(
                text_len(term) as int,
                units_from(term, 0).len() as int,
                limit,
                ask,
                granted,
            ) && match needle_of(
                owner,
                encode_utf8(term),
                Some(units_from(term, 0)),
                limit,
                granted,
            ) {
                Ok(needle) => r matches Ok(found) && found@ == needle,
                Err(e) => r matches Err(f) && f == e,
            },
    ensures
        is_pattern(
            match r {
                Ok(found) => Ok(found@),
                Err(e) => Err(e),
            },
            owner,
            term,
            limit,
            id,
            reserve,
        ),
{
    let granted = choose|granted: bool|
        #[trigger] crate::search::streaming::needle_grant(
            text_len(term) as int,
            units_from(term, 0).len() as int,
            limit,
            ask,
            granted,
        ) && match needle_of(owner, encode_utf8(term), Some(units_from(term, 0)), limit, granted) {
            Ok(needle) => r matches Ok(found) && found@ == needle,
            Err(e) => r matches Err(f) && f == e,
        };
    assert(pattern_grant(term, limit, id, reserve, granted));
}

} // verus!
