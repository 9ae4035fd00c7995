//! What a read of characters returns from a source that delivers a stream
//! of valid UTF-8 piece by piece.

use crate::agent_error::AgentError;
use crate::util::read_chars::{asks_what_is_wanted, is_char_read, lemma_fed_wf, CharReaderView};
use crate::util::source::{ReadKind, ReadRecord};
use crate::util::utf8_prefix::{lemma_longest_valid_prefix, longest_valid_prefix};
use vstd::prelude::*;
use vstd::utf8::*;

verus! {

/// The bytes that the answers of `records` hold, one after the other.
pub open spec fn delivered(records: Seq<ReadRecord>) -> Seq<u8>
    decreases records.len(),
{
    if records.len() == 0 {
        Seq::empty()
    } else {
        delivered(records.drop_last()) + (match records.last().answer {
            Some(chunk) => chunk,
            None => Seq::empty(),
        })
    }
}

/// Whether `records` are reads of a source that holds `stream` and delivers
/// it piece by piece: no read fails, each answer is no longer than what was
/// asked for, the answers together are the beginning of `stream`, and an
/// answer to a request for some bytes is empty only when all of `stream`
/// was delivered before.
pub open spec fn reads_stream(stream: Seq<u8>, records: Seq<ReadRecord>) -> bool {
    &&& delivered(records).len() <= stream.len()
    &&& delivered(records) == stream.subrange(0, delivered(records).len() as int)
    &&& forall|i: int|
        0 <= i < records.len() ==> {
            &&& (#[trigger] records[i]).answer is Some
            &&& records[i].asked matches ReadKind::UpTo(max) && records[i].answer->Some_0.len()
                <= max && (records[i].answer->Some_0.len() == 0 && max > 0 ==> delivered(
                records.take(i),
            ) == stream)
        }
}

/// The bytes of the first `n` characters of `stream`, or all of it if it
/// has no more than `n` characters.
pub open spec fn first_chars(stream: Seq<u8>, n: usize) -> Seq<u8> {
    let chars = decode_utf8(stream);
    if n < chars.len() {
        encode_utf8(chars.take(n as int))
    } else {
        encode_utf8(chars)
    }
}

/// What follows valid UTF-8 in valid UTF-8 is valid UTF-8.
pub proof fn lemma_valid_rest(a: Seq<u8>, b: Seq<u8>)
    requires
        valid_utf8(a),
        valid_utf8(a + b),
    ensures
        valid_utf8(b),
    decreases a.len(),
{
    if a.len() == 0 {
        assert(a + b =~= b);
    } else {
        assert((a + b)[0] == a[0]);
        assert(pop_first_scalar(a + b) =~= pop_first_scalar(a) + b);
        lemma_valid_rest(pop_first_scalar(a), b);
    }
}

/// The characters of two valid texts, one after the other, are the
/// characters of the first followed by those of the second.
pub proof fn lemma_decoded_concat(a: Seq<u8>, b: Seq<u8>)
    requires
        valid_utf8(a),
        valid_utf8(b),
    ensures
        valid_utf8(a + b),
        decode_utf8(a + b) == decode_utf8(a) + decode_utf8(b),
    decreases a.len(),
{
    valid_utf8_concat(a, b);
    if a.len() == 0 {
        assert(a + b =~= b);
        assert(decode_utf8(a) + decode_utf8(b) =~= decode_utf8(b));
    } else {
        let whole = a + b;
        assert(whole[0] == a[0]);
        assert(length_of_first_scalar(whole) == length_of_first_scalar(a));
        assert(length_of_first_scalar(a) <= a.len());
        assert(length_of_first_scalar(a) >= 2 ==> whole[1] == a[1]);
        assert(length_of_first_scalar(a) >= 3 ==> whole[2] == a[2]);
        assert(length_of_first_scalar(a) >= 4 ==> whole[3] == a[3]);
        assert(decode_first_scalar(whole) == decode_first_scalar(a));
        assert(pop_first_scalar(whole) =~= pop_first_scalar(a) + b);
        lemma_decoded_concat(pop_first_scalar(a), b);
        assert(decode_utf8(whole) =~= decode_utf8(a) + decode_utf8(b));
    }
}

/// A valid beginning of a valid stream holds the first characters of the
/// stream, as many as it has.
pub proof fn lemma_valid_beginning(stream: Seq<u8>, text: Seq<u8>)
    requires
        valid_utf8(stream),
        valid_utf8(text),
        text.len() <= stream.len(),
        text == stream.subrange(0, text.len() as int),
    ensures
        decode_utf8(text).len() <= decode_utf8(stream).len(),
        text == encode_utf8(decode_utf8(stream).take(decode_utf8(text).len() as int)),
        decode_utf8(text).len() == decode_utf8(stream).len() ==> text == stream,
{
    let rest = stream.subrange(text.len() as int, stream.len() as int);
    assert(stream =~= text + rest);
    lemma_valid_rest(text, rest);
    lemma_decoded_concat(text, rest);
    assert(decode_utf8(stream).take(decode_utf8(text).len() as int) =~= decode_utf8(text));
    decode_utf8_encode_utf8(text);
    if decode_utf8(text).len() == decode_utf8(stream).len() {
        assert(decode_utf8(rest).len() == 0);
        if rest.len() > 0 {
            assert(decode_utf8(rest).len() > 0);
        }
        assert(stream =~= text);
    }
}

/// A chunk that is no longer than what is wanted goes into the state whole:
/// text and pending bytes together grow by the chunk.
proof fn lemma_fed_keeps_bytes(state: CharReaderView, chunk: Seq<u8>)
    requires
        state.wf(),
        !state.done,
        chunk.len() <= state.limit - state.chars(),
    ensures
        state.fed(chunk).limit == state.limit,
        state.fed(chunk).text + state.fed(chunk).pending == state.text + state.pending + chunk,
{
    assert(state.taken(chunk) == chunk);
    let after = state.fed(chunk);
    if chunk.len() > 0 {
        let buffer = state.pending + chunk;
        let k = longest_valid_prefix(buffer);
        lemma_longest_valid_prefix(buffer);
        assert(buffer.subrange(0, k) + buffer.subrange(k, buffer.len() as int) =~= buffer);
        assert(after.text + after.pending =~= state.text + (buffer.subrange(0, k)
            + buffer.subrange(k, buffer.len() as int)));
        assert(state.text + buffer =~= state.text + state.pending + chunk);
    } else {
        assert(state.text + state.pending + chunk =~= state.text + state.pending);
    }
}

/// The reads of a stream leave a well-formed state whose text and pending
/// bytes are together the bytes delivered so far.
proof fn lemma_state_holds_delivered(n: usize, stream: Seq<u8>, records: Seq<ReadRecord>, i: int)
    requires
        asks_what_is_wanted(n, records),
        reads_stream(stream, records),
        0 <= i <= records.len(),
    ensures
        CharReaderView::start(n).fed_all(records.take(i)).wf(),
        CharReaderView::start(n).fed_all(records.take(i)).limit == n,
        CharReaderView::start(n).fed_all(records.take(i)).text + CharReaderView::start(n).fed_all(
            records.take(i),
        ).pending == delivered(records.take(i)),
    decreases i,
{
    let start = CharReaderView::start(n);
    if i == 0 {
        assert(records.take(0) =~= Seq::<ReadRecord>::empty());
        assert(start.pending.subrange(0, 0) =~= Seq::<u8>::empty());
        assert(start.text + start.pending =~= Seq::<u8>::empty());
    } else {
        lemma_state_holds_delivered(n, stream, records, i - 1);
        let before = start.fed_all(records.take(i - 1));
        let record = records[i - 1];
        assert(record.answer is Some);
        let chunk = record.answer->Some_0;
        assert(before.wanted() is Some && record.asked == ReadKind::UpTo(
            before.wanted()->Some_0,
        ));
        assert(chunk.len() <= before.limit - before.chars());
        assert(records.take(i).drop_last() =~= records.take(i - 1));
        assert(records.take(i).last() == record);
        assert(start.fed_all(records.take(i)) == before.fed(chunk));
        lemma_fed_wf(before, chunk);
        lemma_fed_keeps_bytes(before, chunk);
    }
}

/// A read of up to `n` characters from a source that holds valid UTF-8 and
/// delivers it piece by piece returns the first `n` characters of what the
/// source holds, and fewer only if the source holds no more: all of them.
pub proof fn lemma_reads_first_chars(
    n: usize,
    stream: Seq<u8>,
    records: Seq<ReadRecord>,
    outcome: Result<Seq<u8>, AgentError>,
)
    requires
        valid_utf8(stream),
        reads_stream(stream, records),
        is_char_read(n, records, outcome),
    ensures
        outcome == Ok::<Seq<u8>, AgentError>(first_chars(stream, n)),
{
    let start = CharReaderView::start(n);
    let len = records.len() as int;
    let end = start.fed_all(records);
    let before = start.fed_all(records.drop_last());
    let last = records[len - 1];
    assert(last.answer is Some);
    let chunk = last.answer->Some_0;
    assert(records.take(len) =~= records);
    assert(records.take(len - 1) =~= records.drop_last());
    lemma_state_holds_delivered(n, stream, records, len);
    lemma_state_holds_delivered(n, stream, records, len - 1);
    assert(end == before.fed(chunk));
    assert(before.wanted() is Some && last.asked == ReadKind::UpTo(before.wanted()->Some_0));
    assert(before.taken(chunk) == chunk);
    assert(outcome == Ok::<Seq<u8>, AgentError>(end.text));
    let given = delivered(records);
    assert(end.text =~= given.subrange(0, end.text.len() as int));
    assert(end.text =~= stream.subrange(0, end.text.len() as int));
    lemma_valid_beginning(stream, end.text);
    decode_utf8_encode_utf8(stream);
    if end.chars() >= n {
        assert(end.chars() == n);
    } else {
        assert(chunk.len() == 0);
        assert(delivered(records.take(len - 1)) == stream);
        assert(end.text + end.pending == stream);
        lemma_valid_rest(end.text, end.pending);
        assert(end.pending.subrange(0, end.pending.len() as int) =~= end.pending);
        assert(end.pending.len() == 0);
        assert(end.text =~= stream);
    }
}

} // verus!
