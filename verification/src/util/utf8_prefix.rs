//! Valid UTF-8 at the front of a byte sequence: how long it is, and how many
//! characters it holds.

use vstd::prelude::*;
use vstd::utf8::*;

verus! {

/// Whether `k` is the length of the longest prefix of `bytes` that is valid UTF-8.
pub open spec fn is_longest_valid_prefix(bytes: Seq<u8>, k: int) -> bool {
    &&& 0 <= k <= bytes.len()
    &&& valid_utf8(bytes.subrange(0, k))
    &&& forall|j: int| k < j <= bytes.len() ==> !valid_utf8(#[trigger] bytes.subrange(0, j))
}

/// The number of bytes of `bytes` that begin a character, that is, that are no
/// continuation bytes. In valid UTF-8 this is the number of characters.
pub open spec fn char_starts(bytes: Seq<u8>) -> nat
    decreases bytes.len(),
{
    if bytes.len() == 0 {
        0
    } else {
        char_starts(bytes.drop_last()) + (if is_continuation_byte(bytes.last()) {
            0nat
        } else {
            1nat
        })
    }
}

/// The length of the longest prefix of `bytes` that is valid UTF-8 and no
/// longer than `bound`.
pub open spec fn longest_valid_prefix_within(bytes: Seq<u8>, bound: int) -> int
    decreases bound,
{
    if bound <= 0 {
        0
    } else if bound <= bytes.len() && valid_utf8(bytes.subrange(0, bound)) {
        bound
    } else {
        longest_valid_prefix_within(bytes, bound - 1)
    }
}

/// The length of the longest prefix of `bytes` that is valid UTF-8.
pub open spec fn longest_valid_prefix(bytes: Seq<u8>) -> int {
    longest_valid_prefix_within(bytes, bytes.len() as int)
}

/// `std::str::from_utf8` on `bytes`: the whole length if it accepts them, and
/// otherwise what `Utf8Error::valid_up_to` reports, which std documents as
/// the largest index up to which the bytes are valid UTF-8.
#[verifier::external_body]
fn valid_up_to(bytes: &[u8]) -> (k: usize)
    ensures
        is_longest_valid_prefix(bytes@, k as int),
{
    match std::str::from_utf8(bytes) {
        Ok(text) => text.len(),
        Err(error) => error.valid_up_to(),
    }
}

/// A sequence of bytes has only one longest valid prefix.
pub proof fn lemma_longest_valid_prefix_unique(bytes: Seq<u8>, k1: int, k2: int)
    requires
        is_longest_valid_prefix(bytes, k1),
        is_longest_valid_prefix(bytes, k2),
    ensures
        k1 == k2,
{
    if k1 < k2 {
        assert(!valid_utf8(bytes.subrange(0, k2)));
    } else if k2 < k1 {
        assert(!valid_utf8(bytes.subrange(0, k1)));
    }
}

/// The search from `bound` downwards finds a valid prefix, and no valid
/// prefix lies between what it finds and `bound`.
proof fn lemma_longest_valid_prefix_within(bytes: Seq<u8>, bound: int)
    requires
        0 <= bound <= bytes.len(),
    ensures
        0 <= longest_valid_prefix_within(bytes, bound) <= bound,
        valid_utf8(bytes.subrange(0, longest_valid_prefix_within(bytes, bound))),
        forall|j: int|
            longest_valid_prefix_within(bytes, bound) < j <= bound ==> !valid_utf8(
                #[trigger] bytes.subrange(0, j),
            ),
    decreases bound,
{
    if bound <= 0 {
        assert(bytes.subrange(0, 0) =~= Seq::<u8>::empty());
    } else if valid_utf8(bytes.subrange(0, bound)) {
    } else {
        lemma_longest_valid_prefix_within(bytes, bound - 1);
    }
}

/// `longest_valid_prefix` is what its name says, and nothing else is.
pub proof fn lemma_longest_valid_prefix(bytes: Seq<u8>)
    ensures
        is_longest_valid_prefix(bytes, longest_valid_prefix(bytes)),
        forall|k: int| is_longest_valid_prefix(bytes, k) ==> k == longest_valid_prefix(bytes),
{
    lemma_longest_valid_prefix_within(bytes, bytes.len() as int);
    assert forall|k: int| is_longest_valid_prefix(bytes, k) implies k == longest_valid_prefix(
        bytes,
    ) by {
        lemma_longest_valid_prefix_unique(bytes, k, longest_valid_prefix(bytes));
    }
}

/// Character starts add up over concatenation.
pub proof fn lemma_char_starts_concat(a: Seq<u8>, b: Seq<u8>)
    ensures
        char_starts(a + b) == char_starts(a) + char_starts(b),
    decreases b.len(),
{
    if b.len() == 0 {
        assert(a + b =~= a);
    } else {
        assert((a + b).drop_last() =~= a + b.drop_last());
        assert((a + b).last() == b.last());
        lemma_char_starts_concat(a, b.drop_last());
    }
}

/// There are no more character starts than bytes.
pub proof fn lemma_char_starts_bound(bytes: Seq<u8>)
    ensures
        char_starts(bytes) <= bytes.len(),
    decreases bytes.len(),
{
    if bytes.len() > 0 {
        lemma_char_starts_bound(bytes.drop_last());
    }
}

/// The encoding of one character holds one character start.
proof fn lemma_first_scalar_has_one_start(bytes: Seq<u8>)
    requires
        valid_first_scalar(bytes),
    ensures
        char_starts(take_first_scalar(bytes)) == 1,
{
    let first = take_first_scalar(bytes);
    let len = length_of_first_scalar(bytes);
    assert(first.len() == len);
    assert(!is_continuation_byte(first[0]));
    reveal_with_fuel(char_starts, 5);
    if len == 1 {
        assert(first.drop_last().len() == 0);
    } else if len == 2 {
        let a = first.drop_last();
        assert(a.len() == 1);
        assert(a.drop_last().len() == 0);
        assert(is_continuation_byte(first[1]));
    } else if len == 3 {
        let a = first.drop_last();
        let b = a.drop_last();
        assert(b.drop_last().len() == 0);
        assert(is_continuation_byte(first[1]));
        assert(is_continuation_byte(first[2]));
    } else {
        let a = first.drop_last();
        let b = a.drop_last();
        let c = b.drop_last();
        assert(c.drop_last().len() == 0);
        assert(is_continuation_byte(first[1]));
        assert(is_continuation_byte(first[2]));
        assert(is_continuation_byte(first[3]));
    }
}

/// In valid UTF-8 the character starts are as many as the characters.
pub proof fn lemma_char_starts_counts_chars(bytes: Seq<u8>)
    requires
        valid_utf8(bytes),
    ensures
        char_starts(bytes) == decode_utf8(bytes).len(),
    decreases bytes.len(),
{
    if bytes.len() > 0 {
        let first = take_first_scalar(bytes);
        let rest = pop_first_scalar(bytes);
        assert(bytes =~= first + rest);
        lemma_first_scalar_has_one_start(bytes);
        lemma_char_starts_concat(first, rest);
        lemma_char_starts_counts_chars(rest);
    }
}

/// What is left behind the longest valid prefix has no valid prefix but the empty one.
pub proof fn lemma_rest_has_no_valid_prefix(bytes: Seq<u8>, k: int)
    requires
        is_longest_valid_prefix(bytes, k),
    ensures
        is_longest_valid_prefix(bytes.subrange(k, bytes.len() as int), 0),
{
    let rest = bytes.subrange(k, bytes.len() as int);
    assert(rest.subrange(0, 0) =~= Seq::<u8>::empty());
    assert forall|j: int| 0 < j <= rest.len() implies !valid_utf8(
        #[trigger] rest.subrange(0, j),
    ) by {
        if valid_utf8(rest.subrange(0, j)) {
            valid_utf8_concat(bytes.subrange(0, k), rest.subrange(0, j));
            assert(bytes.subrange(0, k) + rest.subrange(0, j) =~= bytes.subrange(0, k + j));
            assert(!valid_utf8(bytes.subrange(0, k + j)));
        }
    }
}

/// If `carried` has no valid prefix but the empty one, every valid prefix of
/// `carried + fresh` holds at most as many characters as `fresh` has bytes:
/// its first character ends in `fresh`.
pub proof fn lemma_valid_prefix_chars_bounded(carried: Seq<u8>, fresh: Seq<u8>, k: int)
    requires
        is_longest_valid_prefix(carried, 0),
        0 <= k <= carried.len() + fresh.len(),
        valid_utf8((carried + fresh).subrange(0, k)),
    ensures
        decode_utf8((carried + fresh).subrange(0, k)).len() <= fresh.len(),
{
    let prefix = (carried + fresh).subrange(0, k);
    lemma_char_starts_counts_chars(prefix);
    if k == 0 {
    } else if carried.len() == 0 {
        lemma_char_starts_bound(prefix);
    } else {
        let len = length_of_first_scalar(prefix);
        let first = take_first_scalar(prefix);
        let rest = pop_first_scalar(prefix);
        assert(valid_first_scalar(prefix));
        assert(valid_utf8(first)) by {
            reveal_with_fuel(valid_utf8, 2);
            assert(valid_first_scalar(first));
            assert(pop_first_scalar(first).len() == 0);
        }
        if len <= carried.len() {
            assert(carried.subrange(0, len) =~= first);
            assert(!valid_utf8(carried.subrange(0, len)));
        }
        assert(prefix =~= first + rest);
        lemma_char_starts_concat(first, rest);
        lemma_first_scalar_has_one_start(prefix);
        lemma_char_starts_bound(rest);
    }
}

/// The number of characters of `bytes` if they are valid UTF-8: the bytes
/// that begin a character are counted.
pub fn count_chars(bytes: &Vec<u8>) -> (count: usize)
    ensures
        count == char_starts(bytes@),
        valid_utf8(bytes@) ==> count == decode_utf8(bytes@).len(),
{
    let mut count: usize = 0;
    let mut i: usize = 0;
    while i < bytes.len()
        invariant
            i <= bytes.len(),
            count == char_starts(bytes@.subrange(0, i as int)),
            count <= i,
        decreases bytes.len() - i,
    {
        let byte = bytes[i];
        proof {
            assert(bytes@.subrange(0, i + 1).drop_last() =~= bytes@.subrange(0, i as int));
            assert(bytes@.subrange(0, i + 1).last() == byte);
        }
        if !(0x80 <= byte && byte <= 0xbf) {
            count += 1;
        }
        i += 1;
    }
    proof {
        assert(bytes@.subrange(0, i as int) =~= bytes@);
        if valid_utf8(bytes@) {
            lemma_char_starts_counts_chars(bytes@);
        }
    }
    count
}

/// Moves the longest prefix of `pending` that is valid UTF-8 to the end of
/// `text`, and returns the number of characters moved. Bytes that do not yet
/// make up a character stay in `pending`.
pub fn take_valid_prefix(text: &mut Vec<u8>, pending: &mut Vec<u8>) -> (moved: usize)
    ensures
        ({
            let k = longest_valid_prefix(old(pending)@);
            &&& final(text)@ == old(text)@ + old(pending)@.subrange(0, k)
            &&& final(pending)@ == old(pending)@.subrange(k, old(pending)@.len() as int)
            &&& moved == decode_utf8(old(pending)@.subrange(0, k)).len()
        }),
        valid_utf8(old(text)@) ==> valid_utf8(final(text)@) && decode_utf8(final(text)@).len()
            == decode_utf8(old(text)@).len() + moved,
{
    let ghost text0 = text@;
    let ghost pending0 = pending@;
    let k = valid_up_to(pending.as_slice());
    proof {
        lemma_longest_valid_prefix(pending0);
    }
    let rest = pending.split_off(k);
    let moved = count_chars(pending);
    let ghost prefix = pending@;
    text.append(pending);
    *pending = rest;
    proof {
        assert(prefix == pending0.subrange(0, k as int));
        assert(text@ =~= text0 + prefix);
        lemma_char_starts_counts_chars(prefix);
        if valid_utf8(text0) {
            valid_utf8_concat(text0, prefix);
            lemma_char_starts_counts_chars(text0);
            lemma_char_starts_counts_chars(text@);
            lemma_char_starts_concat(text0, prefix);
        }
    }
    moved
}


} // verus!
