//! Splitting a byte stream into its lines.

use crate::agent_error::AgentError;
use crate::util::read_chars::ByteSource;
use crate::util::source::{answer_of, extends, new_reads, LoggedSource, ReadKind, ReadRecord};
use vstd::prelude::*;
use vstd::slice::{slice_subrange, slice_to_vec};

verus! {

/// Whether `byte` ends a line: a line feed or a carriage return.
pub open spec fn is_line_break(byte: u8) -> bool {
    byte == 0x0A || byte == 0x0D
}

/// Whether no byte of `bytes` ends a line.
pub open spec fn has_no_line_break(bytes: Seq<u8>) -> bool {
    forall|i: int| 0 <= i < bytes.len() ==> !is_line_break(#[trigger] bytes[i])
}

/// The index of the first line break of `bytes`, or its length if it has none.
pub open spec fn first_line_break(bytes: Seq<u8>) -> int
    decreases bytes.len(),
{
    if bytes.len() == 0 || is_line_break(bytes[0]) {
        0
    } else {
        1 + first_line_break(bytes.drop_first())
    }
}

/// The lines of `bytes`: its longest runs of bytes without a line break, in
/// order. Line breaks that follow one another, or that stand at either end,
/// enclose no line.
pub open spec fn lines_of(bytes: Seq<u8>) -> Seq<Seq<u8>>
    decreases bytes.len(),
{
    if bytes.len() == 0 {
        Seq::empty()
    } else if is_line_break(bytes[0]) {
        lines_of(bytes.drop_first())
    } else {
        let end = first_line_break(bytes);
        if 0 < end <= bytes.len() {
            seq![bytes.subrange(0, end)] + lines_of(bytes.subrange(end, bytes.len() as int))
        } else {
            Seq::empty()
        }
    }
}

/// The first line break lies within the bytes, and no byte before it is one.
pub proof fn lemma_first_line_break(bytes: Seq<u8>)
    ensures
        0 <= first_line_break(bytes) <= bytes.len(),
        has_no_line_break(bytes.subrange(0, first_line_break(bytes))),
        first_line_break(bytes) < bytes.len() ==> is_line_break(bytes[first_line_break(bytes)]),
        bytes.len() > 0 && !is_line_break(bytes[0]) ==> first_line_break(bytes) > 0,
    decreases bytes.len(),
{
    if bytes.len() == 0 || is_line_break(bytes[0]) {
    } else {
        let rest = bytes.drop_first();
        lemma_first_line_break(rest);
        let end = first_line_break(bytes);
        assert forall|i: int| 0 <= i < end implies !is_line_break(
            #[trigger] bytes.subrange(0, end)[i],
        ) by {
            if i > 0 {
                assert(bytes.subrange(0, end)[i] == rest.subrange(0, end - 1)[i - 1]);
            }
        }
    }
}

/// A stretch without a line break that ends at a line break, or at the end
/// of the bytes, ends at the first line break.
pub proof fn lemma_first_line_break_at(bytes: Seq<u8>, end: int)
    requires
        0 <= end <= bytes.len(),
        has_no_line_break(bytes.subrange(0, end)),
        end < bytes.len() ==> is_line_break(bytes[end]),
    ensures
        first_line_break(bytes) == end,
    decreases end,
{
    if end == 0 {
    } else {
        assert(bytes[0] == bytes.subrange(0, end)[0]);
        let rest = bytes.drop_first();
        assert forall|i: int| 0 <= i < end - 1 implies !is_line_break(
            #[trigger] rest.subrange(0, end - 1)[i],
        ) by {
            assert(rest.subrange(0, end - 1)[i] == bytes.subrange(0, end)[i + 1]);
        }
        lemma_first_line_break_at(rest, end - 1);
    }
}

/// No line is empty, and no line holds a line break.
pub proof fn lemma_lines_are_runs(bytes: Seq<u8>)
    ensures
        forall|i: int|
            0 <= i < lines_of(bytes).len() ==> (#[trigger] lines_of(bytes)[i]).len() > 0
                && has_no_line_break(lines_of(bytes)[i]),
    decreases bytes.len(),
{
    if bytes.len() == 0 {
    } else if is_line_break(bytes[0]) {
        lemma_lines_are_runs(bytes.drop_first());
        assert(lines_of(bytes) == lines_of(bytes.drop_first()));
    } else {
        lemma_first_line_break(bytes);
        let end = first_line_break(bytes);
        let first = bytes.subrange(0, end);
        let rest = bytes.subrange(end, bytes.len() as int);
        lemma_lines_are_runs(rest);
        assert forall|i: int| 0 <= i < lines_of(bytes).len() implies (#[trigger] lines_of(
            bytes,
        )[i]).len() > 0 && has_no_line_break(lines_of(bytes)[i]) by {
            if i > 0 {
                assert(lines_of(bytes)[i] == lines_of(rest)[i - 1]);
            } else {
                assert(lines_of(bytes)[0] == first);
            }
        }
    }
}

/// Bytes without a line break are one line, unless there are none.
pub proof fn lemma_lines_of_run(run: Seq<u8>)
    requires
        run.len() > 0,
        has_no_line_break(run),
    ensures
        lines_of(run) == seq![run],
{
    assert(run.subrange(0, run.len() as int) =~= run);
    assert(!is_line_break(run[0]));
    lemma_first_line_break_at(run, run.len() as int);
    let rest = run.subrange(run.len() as int, run.len() as int);
    assert(lines_of(run) == seq![run.subrange(0, run.len() as int)] + lines_of(rest));
    assert(lines_of(run) =~= seq![run]);
}

/// A line break separates: the lines of what stands before it are followed
/// by the lines of what stands behind it, and the break itself is in neither.
pub proof fn lemma_lines_split(before: Seq<u8>, line_break: u8, after: Seq<u8>)
    requires
        is_line_break(line_break),
    ensures
        lines_of(before + seq![line_break] + after) == lines_of(before) + lines_of(after),
    decreases before.len(),
{
    let whole = before + seq![line_break] + after;
    if before.len() == 0 {
        assert(whole.drop_first() =~= after);
        assert(lines_of(before) + lines_of(after) =~= lines_of(after));
    } else if is_line_break(before[0]) {
        assert(whole.drop_first() =~= before.drop_first() + seq![line_break] + after);
        lemma_lines_split(before.drop_first(), line_break, after);
    } else {
        lemma_first_line_break(before);
        let end = first_line_break(before);
        assert(whole.subrange(0, end) =~= before.subrange(0, end));
        lemma_first_line_break_at(whole, end);
        let before_rest = before.subrange(end, before.len() as int);
        assert(whole.subrange(end, whole.len() as int) =~= before_rest + seq![line_break] + after);
        lemma_lines_split(before_rest, line_break, after);
        assert(seq![before.subrange(0, end)] + (lines_of(before_rest) + lines_of(after)) =~= (
        seq![before.subrange(0, end)] + lines_of(before_rest)) + lines_of(after));
    }
}

/// Splits `buffer` into its lines. Line feeds and carriage returns both end
/// a line, so a carriage return followed by a line feed ends one line, not
/// two, and no line is empty.
pub fn split_lines(buffer: Vec<u8>) -> (lines: Vec<Vec<u8>>)
    ensures
        lines.deep_view() == lines_of(buffer@),
{
    let mut lines: Vec<Vec<u8>> = Vec::new();
    let mut start: usize = 0;
    assert(buffer@.subrange(0, buffer@.len() as int) =~= buffer@);
    while start < buffer.len()
        invariant
            start <= buffer.len(),
            lines.deep_view() + lines_of(buffer@.subrange(start as int, buffer@.len() as int))
                == lines_of(buffer@),
        decreases buffer.len() - start,
    {
        let ghost rest = buffer@.subrange(start as int, buffer@.len() as int);
        let byte = buffer[start];
        if byte == 0x0A || byte == 0x0D {
            proof {
                assert(rest.drop_first() =~= buffer@.subrange(start + 1, buffer@.len() as int));
            }
            start += 1;
        } else {
            let mut end: usize = start + 1;
            while end < buffer.len() && !(buffer[end] == 0x0A || buffer[end] == 0x0D)
                invariant
                    start < end <= buffer.len(),
                    has_no_line_break(buffer@.subrange(start as int, end as int)),
                decreases buffer.len() - end,
            {
                proof {
                    assert forall|i: int| 0 <= i < end + 1 - start implies !is_line_break(
                        #[trigger] buffer@.subrange(start as int, end + 1)[i],
                    ) by {
                        if i < end - start {
                            assert(buffer@.subrange(start as int, end + 1)[i] == buffer@.subrange(
                                start as int,
                                end as int,
                            )[i]);
                        }
                    }
                }
                end += 1;
            }
            let line = slice_to_vec(slice_subrange(buffer.as_slice(), start, end));
            proof {
                assert(rest.subrange(0, end - start) =~= buffer@.subrange(
                    start as int,
                    end as int,
                ));
                lemma_first_line_break_at(rest, end - start);
                assert(rest.subrange(end - start, rest.len() as int) =~= buffer@.subrange(
                    end as int,
                    buffer@.len() as int,
                ));
                assert(line.deep_view() =~= line@);
                assert(lines.deep_view().push(line@) + lines_of(
                    buffer@.subrange(end as int, buffer@.len() as int),
                ) =~= lines.deep_view() + lines_of(rest));
            }
            let ghost earlier = lines.deep_view();
            lines.push(line);
            proof {
                assert(lines.deep_view() =~= earlier.push(line@));
            }
            start = end;
        }
    }
    proof {
        assert(buffer@.subrange(start as int, buffer@.len() as int).len() == 0);
        assert(lines.deep_view() + Seq::<Seq<u8>>::empty() =~= lines.deep_view());
    }
    lines
}

/// The result of reading lines, as mathematical values.
pub open spec fn lines_view(r: Result<Vec<Vec<u8>>, AgentError>) -> Result<
    Seq<Seq<u8>>,
    AgentError,
> {
    match r {
        Ok(lines) => Ok(lines.deep_view()),
        Err(e) => Err(e),
    }
}

/// What reading lines returns when the source answers with `answer`: the
/// lines of the bytes that came, or an I/O error if the read failed.
pub open spec fn lines_answer(answer: Option<Seq<u8>>) -> Result<Seq<Seq<u8>>, AgentError> {
    match answer {
        Some(bytes) => Ok(lines_of(bytes)),
        None => Err(AgentError::IoError),
    }
}

/// Whether `records` are the reads of one reading of lines, and `outcome`
/// what it returns: the source is read once, to its end, and the outcome is
/// what `lines_answer` makes of the answer.
pub open spec fn is_lines_read(
    records: Seq<ReadRecord>,
    outcome: Result<Seq<Seq<u8>>, AgentError>,
) -> bool {
    &&& records.len() == 1
    &&& records[0].asked == ReadKind::ToEnd
    &&& outcome == lines_answer(records[0].answer)
}

/// Reads `file` to its end and splits what came into lines. A failed read is
/// an I/O error.
///
/// Whatever the stream holds, no line of the result is empty and none holds
/// a line break.
pub fn read_lines<T: ByteSource>(file: &mut LoggedSource<T>) -> (r: Result<
    Vec<Vec<u8>>,
    AgentError,
>)
    ensures
        extends(old(file).reads(), final(file).reads()),
        is_lines_read(new_reads(old(file).reads(), final(file).reads()), lines_view(r)),
        r matches Ok(lines) ==> forall|i: int|
            0 <= i < lines@.len() ==> (#[trigger] lines@[i])@.len() > 0 && has_no_line_break(
                lines@[i]@,
            ),
{
    let answer = file.read_to_end();
    proof {
        let before = old(file).reads();
        let after = file.reads();
        assert(after.take(before.len() as int) =~= before);
        assert(new_reads(before, after) =~= seq![after.last()]);
        assert(after.last().answer == answer_of(answer));
    }
    match answer {
        Ok(buffer) => {
            proof {
                lemma_lines_are_runs(buffer@);
            }
            let lines = split_lines(buffer);
            proof {
                assert forall|i: int| 0 <= i < lines@.len() implies (#[trigger] lines@[i])@.len()
                    > 0 && has_no_line_break(lines@[i]@) by {
                    assert(lines.deep_view()[i] == lines@[i].deep_view());
                    assert(lines@[i].deep_view() =~= lines@[i]@);
                }
            }
            Ok(lines)
        },
        Err(_) => Err(AgentError::IoError),
    }
}

} // verus!
