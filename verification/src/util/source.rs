//! A byte source together with the record of what was read from it.

use crate::agent_error::AgentError;
use crate::util::read_chars::ByteSource;
use vstd::prelude::*;

verus! {

/// What a read asks of a source.
pub enum ReadKind {
    /// One read of at most so many bytes.
    UpTo(usize),
    /// Everything from the current position to the end.
    ToEnd,
}

/// One read of a source: what was asked, and the bytes that came, or `None`
/// if the read failed.
pub struct ReadRecord {
    pub asked: ReadKind,
    pub answer: Option<Seq<u8>>,
}

/// What a source answered, as mathematical values.
pub open spec fn answer_of(r: Result<Vec<u8>, std::io::Error>) -> Option<Seq<u8>> {
    match r {
        Ok(bytes) => Some(bytes@),
        Err(_) => None,
    }
}

/// The result of a reader, as mathematical values.
pub open spec fn bytes_of(r: Result<Vec<u8>, AgentError>) -> Result<Seq<u8>, AgentError> {
    match r {
        Ok(bytes) => Ok(bytes@),
        Err(e) => Err(e),
    }
}

/// Whether the record `after` continues the record `before`.
pub open spec fn extends(before: Seq<ReadRecord>, after: Seq<ReadRecord>) -> bool {
    before.len() <= after.len() && after.take(before.len() as int) == before
}

/// The reads that `after` has more than `before`.
pub open spec fn new_reads(before: Seq<ReadRecord>, after: Seq<ReadRecord>) -> Seq<ReadRecord> {
    after.skip(before.len() as int)
}

/// A byte source that keeps a record of every read made through it, so that
/// what a reader returns can be held against what the source answered.
pub struct LoggedSource<S: ByteSource> {
    source: S,
    reads: Ghost<Seq<ReadRecord>>,
}

impl<S: ByteSource> LoggedSource<S> {
    /// Every read made so far, in order.
    pub closed spec fn reads(&self) -> Seq<ReadRecord> {
        self.reads@
    }

    /// The source that is read.
    pub closed spec fn inner(&self) -> S {
        self.source
    }

    /// Starts an empty record for `source`.
    pub fn new(source: S) -> (logged: LoggedSource<S>)
        ensures
            logged.reads() == Seq::<ReadRecord>::empty(),
            logged.inner() == source,
    {
        LoggedSource { source, reads: Ghost(Seq::empty()) }
    }

    /// Reads once from the source, asking for at most `max` bytes, and
    /// records the answer.
    pub fn read_up_to(&mut self, max: usize) -> (r: Result<Vec<u8>, std::io::Error>)
        ensures
            final(self).reads() == old(self).reads().push(
                (ReadRecord { asked: ReadKind::UpTo(max), answer: answer_of(r) }),
            ),
    {
        let r = self.source.read_up_to(max);
        proof {
            self.reads@ = self.reads@.push(
                ReadRecord { asked: ReadKind::UpTo(max), answer: answer_of(r) },
            );
        }
        r
    }

    /// Reads the source to its end and records the answer.
    pub fn read_to_end(&mut self) -> (r: Result<Vec<u8>, std::io::Error>)
        ensures
            final(self).reads() == old(self).reads().push(
                (ReadRecord { asked: ReadKind::ToEnd, answer: answer_of(r) }),
            ),
    {
        let r = self.source.read_to_end();
        proof {
            self.reads@ = self.reads@.push(
                ReadRecord { asked: ReadKind::ToEnd, answer: answer_of(r) },
            );
        }
        r
    }

    /// Hands the source back, as the reads have left it.
    pub fn into_inner(self) -> (source: S)
        ensures
            source == self.inner(),
    {
        self.source
    }
}

} // verus!
