//! Reading a bounded number of bytes or characters from a byte stream.

use crate::agent_error::AgentError;
use crate::types::FileOpenType;
use crate::util::source::{
    bytes_of, extends, new_reads, LoggedSource, ReadKind, ReadRecord,
};
use crate::util::utf8_prefix::{
    is_longest_valid_prefix, lemma_longest_valid_prefix, lemma_rest_has_no_valid_prefix,
    lemma_valid_prefix_chars_bounded, longest_valid_prefix, take_valid_prefix,
};
use vstd::prelude::*;
use vstd::utf8::*;

verus! {

/// The error of a failed read. Nothing inside it is read: every such failure
/// is reported as `AgentError::IoError`.
#[verifier::external_type_specification]
#[verifier::external_body]
pub struct ExIoError(std::io::Error);

/// A stream of bytes that can be read in chunks.
///
/// The host implements this for its files and pipes. Nothing is assumed of
/// an implementation: the readers of this crate cope with whatever it hands
/// back.
pub trait ByteSource {
    /// Reads once, asking for at most `max` bytes, and hands back the bytes
    /// that came. No bytes mean that the stream is at its end.
    fn read_up_to(&mut self, max: usize) -> Result<Vec<u8>, std::io::Error>;

    /// Reads everything from the current position to the end of the stream.
    fn read_to_end(&mut self) -> Result<Vec<u8>, std::io::Error>;
}

/// The first `max` bytes of `bytes`, or all of them if they are no more.
pub open spec fn cut(bytes: Seq<u8>, max: int) -> Seq<u8> {
    if bytes.len() <= max {
        bytes
    } else {
        bytes.subrange(0, max)
    }
}

/// What a read of at most `max` bytes returns when the source answers with
/// `answer`: the bytes that came, cut to `max`, or an I/O error if the read failed.
pub open spec fn chunk_answer(answer: Option<Seq<u8>>, max: usize) -> Result<Seq<u8>, AgentError> {
    match answer {
        Some(bytes) => Ok(cut(bytes, max as int)),
        None => Err(AgentError::IoError),
    }
}

/// Whether `records` are the reads of one read of at most `max` bytes, and
/// `outcome` what it returns: it reads once, asks for `max` bytes, and
/// returns what `chunk_answer` makes of the answer.
pub open spec fn is_chunk_read(
    max: usize,
    records: Seq<ReadRecord>,
    outcome: Result<Seq<u8>, AgentError>,
) -> bool {
    &&& records.len() == 1
    &&& records[0].asked == ReadKind::UpTo(max)
    &&& outcome == chunk_answer(records[0].answer, max)
}

/// Reads once from `source`, asking for `max` bytes, and keeps at most `max`
/// of the bytes that came. A failed read is an I/O error.
pub fn read_chunk<S: ByteSource>(source: &mut LoggedSource<S>, max: usize) -> (r: Result<
    Vec<u8>,
    AgentError,
>)
    ensures
        extends(old(source).reads(), final(source).reads()),
        is_chunk_read(max, new_reads(old(source).reads(), final(source).reads()), bytes_of(r)),
        r matches Ok(bytes) ==> bytes@.len() <= max,
{
    let answer = source.read_up_to(max);
    proof {
        let before = old(source).reads();
        let after = source.reads();
        assert(after.take(before.len() as int) =~= before);
        assert(new_reads(before, after) =~= seq![after.last()]);
        assert(after.last().answer == crate::util::source::answer_of(answer));
    }
    match answer {
        Ok(mut bytes) => {
            let ghost came = bytes@;
            bytes.truncate(max);
            assert(bytes@ == cut(came, max as int));
            Ok(bytes)
        },
        Err(_) => Err(AgentError::IoError),
    }
}

/// The state of one read of characters as mathematical values.
pub struct CharReaderView {
    /// The bytes of the characters read so far.
    pub text: Seq<u8>,
    /// The bytes that came after them and do not yet make up a character.
    pub pending: Seq<u8>,
    /// The number of characters wanted at most.
    pub limit: usize,
    /// Whether the read has come to its end.
    pub done: bool,
}

impl CharReaderView {
    /// The state before anything was read.
    pub open spec fn start(limit: usize) -> CharReaderView {
        CharReaderView { text: Seq::empty(), pending: Seq::empty(), limit, done: false }
    }

    /// The number of characters read so far.
    pub open spec fn chars(self) -> nat {
        decode_utf8(self.text).len()
    }

    /// What holds of every state: the text is valid UTF-8 of at most `limit`
    /// characters, and what is pending does not begin with a character.
    pub open spec fn wf(self) -> bool {
        &&& valid_utf8(self.text)
        &&& self.chars() <= self.limit
        &&& is_longest_valid_prefix(self.pending, 0)
    }

    /// The number of bytes to ask the stream for next: as many as characters
    /// are still missing. Nothing is asked once the read is done.
    pub open spec fn wanted(self) -> Option<usize> {
        if self.done {
            None
        } else {
            Some((self.limit - self.chars()) as usize)
        }
    }

    /// The part of `chunk` that is taken: all of it, unless it is longer
    /// than what was asked for.
    pub open spec fn taken(self, chunk: Seq<u8>) -> Seq<u8> {
        if chunk.len() <= self.limit - self.chars() {
            chunk
        } else {
            chunk.subrange(0, self.limit - self.chars())
        }
    }

    /// The state after the stream has answered with `chunk`.
    ///
    /// No bytes mean that the source is exhausted, which ends the read.
    /// Otherwise the chunk goes behind what was pending, the longest valid
    /// prefix of the two moves to the text, and the read is done once the
    /// text has all the characters that were wanted.
    pub open spec fn fed(self, chunk: Seq<u8>) -> CharReaderView {
        let fresh = self.taken(chunk);
        if self.done {
            self
        } else if fresh.len() == 0 {
            CharReaderView { done: true, ..self }
        } else {
            let buffer = self.pending + fresh;
            let k = longest_valid_prefix(buffer);
            let text = self.text + buffer.subrange(0, k);
            let pending = buffer.subrange(k, buffer.len() as int);
            CharReaderView {
                text,
                pending,
                limit: self.limit,
                done: decode_utf8(text).len() >= self.limit,
            }
        }
    }

    /// The state after the source has given the answers of `records`, one
    /// after the other. A read that failed has no answer and changes nothing.
    pub open spec fn fed_all(self, records: Seq<ReadRecord>) -> CharReaderView
        decreases records.len(),
    {
        if records.len() == 0 {
            self
        } else {
            let earlier = self.fed_all(records.drop_last());
            match records.last().answer {
                Some(chunk) => earlier.fed(chunk),
                None => earlier,
            }
        }
    }

    /// An upper bound on the number of answers that the read can still take.
    pub open spec fn steps_left(self) -> int {
        if self.done {
            0
        } else {
            1 + 2 * usize::MAX - self.text.len() - self.pending.len()
        }
    }
}

/// Whether each read of `records` asks for as many bytes as the state after
/// the answers before it wants, in a read of up to `n` characters.
pub open spec fn asks_what_is_wanted(n: usize, records: Seq<ReadRecord>) -> bool {
    forall|i: int|
        0 <= i < records.len() ==> CharReaderView::start(n).fed_all(records.take(i)).wanted()
            is Some && (#[trigger] records[i]).asked == ReadKind::UpTo(
            CharReaderView::start(n).fed_all(records.take(i)).wanted()->Some_0,
        )
}

/// Whether no read of `records` failed.
pub open spec fn all_answered(records: Seq<ReadRecord>) -> bool {
    forall|i: int| 0 <= i < records.len() ==> (#[trigger] records[i]).answer is Some
}

/// Whether `records` are the reads of one read of up to `n` characters, and
/// `outcome` what it returns.
///
/// There is at least one read. Each read asks for as many bytes as the
/// state after the answers before it wants. Only the last read can have
/// failed, and then the outcome is an I/O error. Otherwise the state after
/// all the answers is done, and the outcome is its text.
pub open spec fn is_char_read(
    n: usize,
    records: Seq<ReadRecord>,
    outcome: Result<Seq<u8>, AgentError>,
) -> bool {
    let end = CharReaderView::start(n).fed_all(records);
    &&& records.len() > 0
    &&& asks_what_is_wanted(n, records)
    &&& all_answered(records.drop_last())
    &&& match records.last().answer {
        None => outcome == Err::<Seq<u8>, AgentError>(AgentError::IoError),
        Some(_) => end.done && outcome == Ok::<Seq<u8>, AgentError>(end.text),
    }
}

/// One more read that asks for what is wanted continues a run of reads.
proof fn lemma_one_more_read(n: usize, seen: Seq<ReadRecord>, record: ReadRecord)
    requires
        asks_what_is_wanted(n, seen),
        all_answered(seen),
        CharReaderView::start(n).fed_all(seen).wanted() is Some,
        record.asked == ReadKind::UpTo(CharReaderView::start(n).fed_all(seen).wanted()->Some_0),
    ensures
        asks_what_is_wanted(n, seen.push(record)),
        all_answered(seen.push(record).drop_last()),
        record.answer is Some ==> all_answered(seen.push(record)),
        CharReaderView::start(n).fed_all(seen.push(record)) == (match record.answer {
            Some(chunk) => CharReaderView::start(n).fed_all(seen).fed(chunk),
            None => CharReaderView::start(n).fed_all(seen),
        }),
{
    let start = CharReaderView::start(n);
    let now = seen.push(record);
    assert(now.drop_last() =~= seen);
    assert forall|i: int| 0 <= i < now.len() implies start.fed_all(now.take(i)).wanted() is Some
        && (#[trigger] now[i]).asked == ReadKind::UpTo(
        start.fed_all(now.take(i)).wanted()->Some_0,
    ) by {
        if i < seen.len() {
            assert(now.take(i) =~= seen.take(i));
            assert(now[i] == seen[i]);
        } else {
            assert(now.take(i) =~= seen);
        }
    }
    if record.answer is Some {
        assert forall|i: int| 0 <= i < now.len() implies (#[trigger] now[i]).answer is Some by {
            if i < seen.len() {
                assert(now[i] == seen[i]);
            }
        }
    }
}

/// A chunk that was cut to what the state wants is fed as the whole chunk is.
pub proof fn lemma_fed_cut(state: CharReaderView, chunk: Seq<u8>)
    requires
        state.wanted() is Some,
        state.chars() <= state.limit,
    ensures
        state.fed(cut(chunk, state.wanted()->Some_0 as int)) == state.fed(chunk),
{
    let wanted = state.wanted()->Some_0 as int;
    assert(state.taken(cut(chunk, wanted)) =~= state.taken(chunk));
}

/// Feeding a chunk keeps a state well formed.
pub proof fn lemma_fed_wf(state: CharReaderView, chunk: Seq<u8>)
    requires
        state.wf(),
    ensures
        state.fed(chunk).wf(),
{
    let fresh = state.taken(chunk);
    if !state.done && fresh.len() > 0 {
        let buffer = state.pending + fresh;
        let k = longest_valid_prefix(buffer);
        lemma_longest_valid_prefix(buffer);
        lemma_valid_prefix_chars_bounded(state.pending, fresh, k);
        lemma_rest_has_no_valid_prefix(buffer, k);
        valid_utf8_concat(state.text, buffer.subrange(0, k));
        lemma_decoded_len_concat(state.text, buffer.subrange(0, k));
    }
}

/// The characters of two valid texts add up when one follows the other.
pub proof fn lemma_decoded_len_concat(a: Seq<u8>, b: Seq<u8>)
    requires
        valid_utf8(a),
        valid_utf8(b),
    ensures
        valid_utf8(a + b),
        decode_utf8(a + b).len() == decode_utf8(a).len() + decode_utf8(b).len(),
{
    valid_utf8_concat(a, b);
    crate::util::utf8_prefix::lemma_char_starts_counts_chars(a);
    crate::util::utf8_prefix::lemma_char_starts_counts_chars(b);
    crate::util::utf8_prefix::lemma_char_starts_counts_chars(a + b);
    crate::util::utf8_prefix::lemma_char_starts_concat(a, b);
}

/// One read of up to `limit` characters, which is fed the chunks that the
/// stream delivers and says after each how many bytes to ask for next.
pub struct CharReader {
    text: Vec<u8>,
    pending: Vec<u8>,
    count: usize,
    limit: usize,
    done: bool,
}

impl View for CharReader {
    type V = CharReaderView;

    closed spec fn view(&self) -> CharReaderView {
        CharReaderView {
            text: self.text@,
            pending: self.pending@,
            limit: self.limit,
            done: self.done,
        }
    }
}

impl CharReader {
    /// Every reader is well formed, and counts the characters of its text.
    #[verifier::type_invariant]
    closed spec fn well_formed(&self) -> bool {
        &&& self@.wf()
        &&& self.count == self@.chars()
    }

    /// A read of up to `limit` characters that has read nothing yet. Its
    /// first request is for `limit` bytes, since no character has fewer than one.
    pub fn new(limit: usize) -> (reader: CharReader)
        ensures
            reader@ == CharReaderView::start(limit),
    {
        let text: Vec<u8> = Vec::new();
        let pending: Vec<u8> = Vec::new();
        proof {
            assert(pending@.subrange(0, 0) =~= Seq::<u8>::empty());
        }
        CharReader { text, pending, count: 0, limit, done: false }
    }

    /// The number of bytes to ask the stream for, or `None` if the read is done.
    pub fn wanted(&self) -> (r: Option<usize>)
        ensures
            r == self@.wanted(),
    {
        proof {
            use_type_invariant(self);
        }
        if self.done {
            None
        } else {
            Some(self.limit - self.count)
        }
    }

    /// Takes the answer of the stream to the last request.
    pub fn feed(self, chunk: Vec<u8>) -> (reader: CharReader)
        ensures
            reader@ == self@.fed(chunk@),
            reader@.wf(),
            !self@.done ==> 0 <= reader@.steps_left() < self@.steps_left(),
    {
        proof {
            use_type_invariant(&self);
            lemma_fed_wf(self@, chunk@);
        }
        let ghost before = self@;
        let CharReader { mut text, mut pending, count, limit, done } = self;
        if done {
            return CharReader { text, pending, count, limit, done };
        }
        let mut fresh = chunk;
        fresh.truncate(limit - count);
        assert(fresh@ == before.taken(chunk@));
        assert(text.len() + pending.len() <= 2 * usize::MAX);
        if fresh.len() == 0 {
            return CharReader { text, pending, count, limit, done: true };
        }
        let ghost carried = pending@;
        pending.append(&mut fresh);
        let ghost buffer = pending@;
        let moved = take_valid_prefix(&mut text, &mut pending);
        proof {
            lemma_longest_valid_prefix(buffer);
            lemma_valid_prefix_chars_bounded(
                carried,
                before.taken(chunk@),
                longest_valid_prefix(buffer),
            );
            assert(text.len() + pending.len() == before.text.len() + buffer.len());
        }
        let count = count + moved;
        let done = count >= limit;
        CharReader { text, pending, count, limit, done }
    }

    /// The bytes of the characters read. Pending bytes are dropped.
    pub fn into_bytes(self) -> (text: Vec<u8>)
        ensures
            text@ == self@.text,
            valid_utf8(text@),
            decode_utf8(text@).len() <= self@.limit,
    {
        proof {
            use_type_invariant(&self);
        }
        self.text
    }
}

/// Reads up to `n` characters of UTF-8 text from `reader` and returns their bytes.
///
/// The first read asks for `n` bytes, since no character has fewer than one.
/// Bytes at the end of a chunk that do not yet make up a character are kept
/// and tried again with the next chunk, which asks for as many bytes as
/// characters are still missing. Reading goes on while characters are
/// missing and the reader delivers bytes: it stops when `n` characters are
/// there or when the reader has nothing more. A failed read is an I/O error.
///
/// The reads that are made and what is returned are those of `is_char_read`.
/// Whatever the reader delivers, the result is valid UTF-8 of at most `n`
/// characters, so no character is ever cut in two.
pub fn read_chars<R: ByteSource>(reader: &mut LoggedSource<R>, n: usize) -> (r: Result<
    Vec<u8>,
    AgentError,
>)
    ensures
        extends(old(reader).reads(), final(reader).reads()),
        is_char_read(n, new_reads(old(reader).reads(), final(reader).reads()), bytes_of(r)),
        r matches Ok(text) ==> valid_utf8(text@) && decode_utf8(text@).len() <= n,
{
    let ghost before = reader.reads();
    let ghost mut seen: Seq<ReadRecord> = Seq::empty();
    let mut progress = CharReader::new(n);
    proof {
        assert(reader.reads().take(before.len() as int) =~= before);
        assert(new_reads(before, reader.reads()) =~= seen);
    }
    loop
        invariant
            progress@.limit == n,
            progress@.wf(),
            progress@.steps_left() >= 0,
            before == old(reader).reads(),
            extends(before, reader.reads()),
            seen == new_reads(before, reader.reads()),
            progress@ == CharReaderView::start(n).fed_all(seen),
            asks_what_is_wanted(n, seen),
            all_answered(seen),
        ensures
            extends(before, reader.reads()),
            progress@.limit == n,
            is_char_read(
                n,
                new_reads(before, reader.reads()),
                Ok::<Seq<u8>, AgentError>(progress@.text),
            ),
        decreases progress@.steps_left(),
    {
        let ghost earlier = reader.reads();
        let wanted = match progress.wanted() {
            Some(wanted) => wanted,
            None => {
                proof {
                    assert(seen.len() > 0);
                    assert(seen.last().answer is Some);
                    assert(all_answered(seen.drop_last())) by {
                        assert forall|i: int| 0 <= i < seen.drop_last().len() implies (
                        #[trigger] seen.drop_last()[i]).answer is Some by {
                            assert(seen.drop_last()[i] == seen[i]);
                        }
                    }
                }
                break ;
            },
        };
        let answer = read_chunk(reader, wanted);
        proof {
            let record = reader.reads().last();
            assert(new_reads(earlier, reader.reads())[0] == record);
            assert(reader.reads() =~= earlier.push(record));
            assert(reader.reads().take(before.len() as int) =~= before);
            assert(new_reads(before, reader.reads()) =~= seen.push(record));
            lemma_one_more_read(n, seen, record);
            if let Some(chunk) = record.answer {
                lemma_fed_cut(progress@, chunk);
            }
            seen = seen.push(record);
            assert(extends(before, reader.reads()));
            assert(seen.last() == record);
            assert(answer is Err ==> is_char_read(n, seen, bytes_of(answer)));
        }
        let chunk = match answer {
            Ok(chunk) => chunk,
            Err(e) => {
                return Err(e);
            },
        };
        progress = progress.feed(chunk);
    }
    Ok(progress.into_bytes())
}

/// Whether `records` are the reads of one read of `n` units from a file of
/// type `file_type`, and `outcome` what it returns: one read of up to `n`
/// bytes of a binary file, and a read of up to `n` characters of a text file.
pub open spec fn is_generic_read(
    n: u32,
    file_type: FileOpenType,
    records: Seq<ReadRecord>,
    outcome: Result<Seq<u8>, AgentError>,
) -> bool {
    match file_type {
        FileOpenType::Binary => is_chunk_read(n as usize, records, outcome),
        FileOpenType::Text => is_char_read(n as usize, records, outcome),
    }
}

/// Reads from `reader` as the open type of a file asks: up to `n` bytes of a
/// binary file, in one read, and up to `n` characters of a text file.
pub fn read_generic<R: ByteSource>(
    reader: &mut LoggedSource<R>,
    n: u32,
    file_type: FileOpenType,
) -> (r: Result<Vec<u8>, AgentError>)
    ensures
        extends(old(reader).reads(), final(reader).reads()),
        is_generic_read(
            n,
            file_type,
            new_reads(old(reader).reads(), final(reader).reads()),
            bytes_of(r),
        ),
        r matches Ok(bytes) ==> (file_type == FileOpenType::Binary ==> bytes@.len() <= n) && (
        file_type == FileOpenType::Text ==> valid_utf8(bytes@) && decode_utf8(bytes@).len() <= n),
{
    match file_type {
        FileOpenType::Binary => read_chunk(reader, n as usize),
        FileOpenType::Text => read_chars(reader, n as usize),
    }
}

} // verus!
