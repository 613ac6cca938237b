//! Searching the bytes of one member of a saved snapshot.
use vstd::prelude::*;

use crate::envelope::Sha256Digest;
use crate::identity::QueryGeneration;
use crate::search::source::{SourceEncoding, SourceError, StreamError};
use crate::search::streaming::stepping::{
    lemma_steps_more, matcher_ok, replies_of, steps,
};
use crate::search::streaming::{
    ByteBatch, ReaderSearch, StreamReadError, StreamReadState, StreamReadStep, StreamReply,
};
use crate::text::bytes_of;

verus! {

/// A member whose bytes the host has loaded and verified.
#[derive(Debug)]
pub struct VerifiedMember<B = Vec<u8>> {
    pub ordinal: usize,
    pub archive: Sha256Digest,
    pub source: Sha256Digest,
    pub bytes: B,
}

/// The model of a loaded member.
pub type LoadedModel = VerifiedMember<Seq<u8>>;

impl View for VerifiedMember {
    type V = VerifiedMember<Seq<u8>>;

    open spec fn view(&self) -> VerifiedMember<Seq<u8>> {
        VerifiedMember {
            ordinal: self.ordinal,
            archive: self.archive,
            source: self.source,
            bytes: self.bytes@,
        }
    }
}

/// A search of a loaded member.
#[derive(Debug)]
pub struct MemberScan<'needle> {
    pub search: ReaderSearch<'needle>,
    pub member: VerifiedMember,
}

/// The bytes of a member from a position on, at most `count` of them.
pub open spec fn next_bytes(bytes: Seq<u8>, at: int, count: int) -> Seq<u8> {
    if at >= bytes.len() {
        Seq::empty()
    } else if bytes.len() - at < count {
        bytes.subrange(at, bytes.len() as int)
    } else {
        bytes.subrange(at, at + count)
    }
}

/// A loaded member gives its bytes in order, and never fails.
pub open spec fn member_replies(bytes: Seq<u8>, at: int) -> spec_fn(usize, StreamReply) -> bool {
    |count: usize, reply: StreamReply|
        reply matches StreamReply::Bytes(part) && part@ == next_bytes(bytes, at, count as int)
}

fn take_bytes(bytes: &Vec<u8>, at: usize, count: usize) -> (r: Vec<u8>)
    ensures
        r@ == next_bytes(bytes@, at as int, count as int),
{
    if at >= bytes.len() {
        Vec::new()
    } else if bytes.len() - at < count {
        let n: usize = bytes.len();
        bytes_of(bytes, at, n)
    } else {
        bytes_of(bytes, at, at + count)
    }
}

impl<'needle> MemberScan<'needle> {
    pub open spec fn wf(self) -> bool {
        self.search@.wf() && self.search@.core.length == self.member@.bytes.len()
    }

    /// Goes on with the search of the member.
    pub fn step<
        D: FnMut(&Vec<u8>) -> SourceEncoding,
        V: FnMut(&Vec<u8>, usize, SourceEncoding, u64) -> Result<Option<u64>, SourceError>,
        M: FnMut(&Vec<u8>, &Vec<u8>, usize, usize, usize, usize) -> Result<ByteBatch, StreamError>,
        C: FnMut() -> bool,
    >(
        &mut self,
        step: StreamReadStep,
        active: QueryGeneration,
        detect: &mut D,
        check: &mut V,
        search: &mut M,
        canceled: &mut C,
    ) -> (r: Result<StreamReadState, StreamReadError>)
        requires
            old(self).wf(),
            forall|bytes: &Vec<u8>| call_requires(*old(detect), (bytes,)),
            forall|bytes: &Vec<u8>, n: usize, e: SourceEncoding, base: u64|
                call_requires(*old(check), (bytes, n, e, base)),
            matcher_ok(*old(search)),
            call_requires(*old(canceled), ()),
        ensures
            *final(detect) == *old(detect),
            *final(check) == *old(check),
            *final(search) == *old(search),
            *final(canceled) == *old(canceled),
            final(self).wf(),
            final(self).search@.core.same_job(old(self).search@.core),
            final(self).search.needle == old(self).search.needle,
            final(self).member == old(self).member,
            steps(
                old(self).search@,
                old(self).search.needle@,
                step,
                active,
                member_replies(
                    old(self).member@.bytes,
                    old(self).search@.core.stats.bytes_read as int,
                ),
                *old(detect),
                *old(check),
                *old(search),
                *old(canceled),
                final(self).search@,
                r,
            ),
    {
        let ghost before = self.search@;
        let at: usize = self.search.core.stats.bytes_read as usize;
        let bytes = &self.member.bytes;
        let length: usize = bytes.len();
        assert(at as int == before.core.stats.bytes_read <= length);
        let mut read = |count: usize| -> (reply: StreamReply)
            ensures
                reply matches StreamReply::Bytes(part) && part@ == next_bytes(
                    bytes@,
                    at as int,
                    count as int,
                ),
            { StreamReply::Bytes(take_bytes(bytes, at, count)) };
        let ghost reader = read;
        let r = self.search.step(step, active, &mut read, detect, check, search, canceled);
        proof {
            lemma_steps_more(
                before,
                self.search.needle@,
                step,
                active,
                replies_of(reader),
                member_replies(bytes@, at as int),
                *old(detect),
                *old(check),
                *old(search),
                *old(canceled),
                self.search@,
                r,
            );
        }
        r
    }
}

} // verus!
