//! Accumulates incomplete UTF-8 sequences across PTY read boundaries.
//!
//! PTY reads use fixed-size buffers (typically 4 KB) that can split multi-byte
//! UTF-8 characters. `String::from_utf8_lossy` would replace both halves with
//! U+FFFD. This accumulator buffers the trailing incomplete bytes and prepends
//! them to the next read, returning `Cow<str>` (borrowed when the input is
//! already valid UTF-8).

use std::borrow::Cow;
use vstd::prelude::*;
use vstd::slice::*;
use vstd::utf8::*;

verus! {

/// Maximum number of bytes in an incomplete UTF-8 sequence (a code point is at
/// most 4 bytes).
pub const MAX_PARTIAL: usize = 4;

/// The length of the longest prefix of `bytes` that is valid UTF-8: the scalars
/// at the front, up to the first place where no scalar starts.
pub open spec fn valid_prefix_len(bytes: Seq<u8>) -> int
    decreases bytes.len(),
{
    if valid_first_scalar(bytes) {
        length_of_first_scalar(bytes) + valid_prefix_len(pop_first_scalar(bytes))
    } else {
        0
    }
}

/// `n` is the largest index up to which `bytes` is valid UTF-8.
pub open spec fn is_longest_valid_prefix(bytes: Seq<u8>, n: int) -> bool {
    &&& 0 <= n <= bytes.len()
    &&& valid_utf8(bytes.take(n))
    &&& forall|m: int| n < m <= bytes.len() ==> !valid_utf8(#[trigger] bytes.take(m))
}

/// The number of bytes that a lead byte announces for its sequence; 0 for a byte
/// that leads no multi-byte sequence.
pub open spec fn announced_len(lead: u8) -> int {
    if is_leading_byte_width_2(lead) {
        2
    } else if is_leading_byte_width_3(lead) {
        3
    } else if is_leading_byte_width_4(lead) {
        4
    } else {
        0
    }
}

/// `bytes` is a lead byte followed by continuation bytes, fewer than the lead
/// byte announces.
pub open spec fn incomplete_start(bytes: Seq<u8>) -> bool {
    &&& 0 < bytes.len() < announced_len(bytes[0])
    &&& forall|i: int| 1 <= i < bytes.len() ==> is_continuation_byte(#[trigger] bytes[i])
}

/// `second` can stand behind `lead` in the encoding of a scalar: behind some lead
/// bytes a part of the continuation bytes would make the encoding overlong, a
/// surrogate, or larger than any scalar.
pub open spec fn second_fits(lead: u8, second: u8) -> bool {
    &&& lead == 0xE0 ==> second >= 0xA0
    &&& lead == 0xED ==> second <= 0x9F
    &&& lead == 0xF0 ==> second >= 0x90
    &&& lead == 0xF4 ==> second <= 0x8F
}

/// `bytes` is the start of a sequence that can still become valid: a proper front,
/// of at least one byte, of the encoding of one scalar.
pub open spec fn scalar_start(bytes: Seq<u8>) -> bool {
    &&& incomplete_start(bytes)
    &&& 0xC2 <= bytes[0] <= 0xF4
    &&& bytes.len() >= 2 ==> second_fits(bytes[0], bytes[1])
}

/// `bytes` is the encoding of one scalar.
pub open spec fn is_one_scalar(bytes: Seq<u8>) -> bool {
    valid_first_scalar(bytes) && length_of_first_scalar(bytes) == bytes.len()
}

/// What `String::from_utf8_lossy` makes of `bytes`.
pub uninterp spec fn utf8_lossy(bytes: Seq<u8>) -> Seq<char>;

/// The text of `bytes`: they are decoded as they are where they are valid UTF-8, and
/// lossily otherwise.
pub open spec fn decoded(bytes: Seq<u8>) -> Seq<char> {
    if valid_utf8(bytes) {
        decode_utf8(bytes)
    } else {
        utf8_lossy(bytes)
    }
}

/// `bytes` holds an invalid sequence at `n`, of `k` bytes: one to three, of which all
/// but the first are continuation bytes.
pub open spec fn invalid_sequence(bytes: Seq<u8>, n: int, k: int) -> bool {
    &&& 1 <= k <= 3
    &&& n + k <= bytes.len()
    &&& forall|i: int| n < i < n + k ==> is_continuation_byte(#[trigger] bytes[i])
}

/// `text` is the valid front of `bytes`, one U+FFFD for the invalid sequence behind it,
/// and the text of the bytes behind that.
pub open spec fn replaces_first_invalid(bytes: Seq<u8>, text: Seq<char>) -> bool {
    let n = valid_prefix_len(bytes);
    exists|k: int|
        #[trigger] invalid_sequence(bytes, n, k) && text == decode_utf8(bytes.take(n)).push(
            '\u{FFFD}',
        ) + decoded(bytes.skip(n + k))
}

/// Calls `std::str::from_utf8`, and `Utf8Error::valid_up_to` on its error.
///
/// Claimed: it succeeds exactly on valid UTF-8 and then hands back the same bytes
/// as a string; on other input the error holds the largest index up to which the
/// input is valid.
#[verifier::external_body]
fn from_utf8<'a>(bytes: &'a [u8]) -> (res: Result<&'a str, usize>)
    ensures
        res is Ok <==> valid_utf8(bytes@),
        res matches Ok(s) ==> s@ == decode_utf8(bytes@),
        res matches Err(n) ==> is_longest_valid_prefix(bytes@, n as int),
{
    match std::str::from_utf8(bytes) {
        Ok(s) => Ok(s),
        Err(e) => Err(e.valid_up_to()),
    }
}

/// Calls `String::from_utf8_lossy`.
///
/// Claimed: the result is a function of the bytes; valid UTF-8 is decoded as it
/// is; otherwise the text before the first invalid sequence is kept, that
/// sequence (a byte, and at most two continuation bytes behind it) becomes one
/// U+FFFD, and decoding goes on behind it. How many of the continuation bytes behind
/// an invalid byte belong to its sequence is left unsaid.
#[verifier::external_body]
pub(crate) fn from_utf8_lossy(bytes: &[u8]) -> (res: String)
    ensures
        res@ == utf8_lossy(bytes@),
        valid_utf8(bytes@) ==> res@ == decode_utf8(bytes@),
        !valid_utf8(bytes@) ==> replaces_first_invalid(bytes@, res@),
{
    String::from_utf8_lossy(bytes).into_owned()
}

/// A byte sequence that starts with a scalar is as valid as what follows it, and
/// looks the same when only cut behind that scalar.
proof fn lemma_first_scalar_of_prefix(bytes: Seq<u8>, m: int)
    requires
        0 <= m <= bytes.len(),
        valid_first_scalar(bytes.take(m)),
    ensures
        valid_first_scalar(bytes),
        length_of_first_scalar(bytes) == length_of_first_scalar(bytes.take(m)),
        length_of_first_scalar(bytes) <= m,
        pop_first_scalar(bytes.take(m)) == pop_first_scalar(bytes).take(
            m - length_of_first_scalar(bytes),
        ),
{
    let cut = bytes.take(m);
    assert(cut.len() >= 1);
    assert(forall|i: int| 0 <= i < m ==> cut[i] == bytes[i]);
    assert(pop_first_scalar(cut) =~= pop_first_scalar(bytes).take(
        m - length_of_first_scalar(bytes),
    ));
}

/// [`valid_prefix_len`] is the length of the longest valid prefix.
pub proof fn lemma_valid_prefix_len(bytes: Seq<u8>)
    ensures
        is_longest_valid_prefix(bytes, valid_prefix_len(bytes)),
    decreases bytes.len(),
{
    let n = valid_prefix_len(bytes);
    if valid_first_scalar(bytes) {
        let len = length_of_first_scalar(bytes);
        let rest = pop_first_scalar(bytes);
        lemma_valid_prefix_len(rest);
        assert(valid_first_scalar(bytes.take(n)));
        assert(pop_first_scalar(bytes.take(n)) =~= rest.take(n - len));
    }
    assert forall|m: int| n < m <= bytes.len() implies !valid_utf8(#[trigger] bytes.take(m)) by {
        if valid_utf8(bytes.take(m)) {
            lemma_first_scalar_of_prefix(bytes, m);
            let len = length_of_first_scalar(bytes);
            assert(!valid_utf8(pop_first_scalar(bytes).take(m - len)));
        }
    }
}

/// No other length is that of the longest valid prefix.
proof fn lemma_longest_is_valid_prefix_len(bytes: Seq<u8>, n: int)
    requires
        is_longest_valid_prefix(bytes, n),
    ensures
        n == valid_prefix_len(bytes),
{
    lemma_valid_prefix_len(bytes);
    let k = valid_prefix_len(bytes);
    assert(valid_utf8(bytes.take(k)) && valid_utf8(bytes.take(n)));
}

/// Returns the byte length of the longest valid UTF-8 prefix.
pub fn utf8_valid_prefix_len(data: &[u8]) -> (n: usize)
    ensures
        n == valid_prefix_len(data@),
        is_longest_valid_prefix(data@, n as int),
        n == data@.len() <==> valid_utf8(data@),
{
    proof {
        lemma_valid_prefix_len(data@);
        assert(data@.take(data@.len() as int) =~= data@);
    }
    match from_utf8(data) {
        Ok(_) => data.len(),
        Err(n) => {
            proof {
                lemma_longest_is_valid_prefix_len(data@, n as int);
            }
            n
        },
    }
}

/// Check if `bytes` looks like the start of a valid multi-byte UTF-8 sequence
/// that is simply incomplete (truncated).
pub fn is_incomplete_start(bytes: &[u8]) -> (res: bool)
    ensures
        res == incomplete_start(bytes@),
{
    if bytes.len() == 0 {
        return false;
    }
    let lead: u8 = bytes[0];
    let expected_len: usize = match lead {
        0xC0..=0xDF => 2,
        0xE0..=0xEF => 3,
        0xF0..=0xF7 => 4,
        _ => return false,
    };
    if bytes.len() >= expected_len {
        // We have enough bytes but they weren't valid: not just incomplete.
        return false;
    }
    let mut i: usize = 1;
    while i < bytes.len()
        invariant
            1 <= i <= bytes@.len(),
            forall|j: int| 1 <= j < i ==> is_continuation_byte(#[trigger] bytes@[j]),
        decreases bytes@.len() - i,
    {
        if !(0x80 <= bytes[i] && bytes[i] <= 0xBF) {
            return false;
        }
        i += 1;
    }
    true
}

/// A lead byte and its continuation bytes encode a scalar exactly where the lead byte
/// and the second byte are in range.
proof fn lemma_first_scalar_bytes(bytes: Seq<u8>)
    requires
        valid_leading_and_continuation_bytes_first_codepoint(bytes),
    ensures
        valid_first_scalar(bytes) <==> is_leading_byte_width_1(bytes[0]) || (0xC2 <= bytes[0]
            <= 0xF4 && second_fits(bytes[0], bytes[1])),
{
    let b0 = bytes[0];
    if is_leading_byte_width_1(b0) {
        assert((b0 & 0x7F) as u32 <= 0x7F) by (bit_vector);
    } else if is_leading_byte_width_2(b0) {
        let b1 = bytes[1];
        let c = codepoint_width_2(b0, b1);
        assert((0x80 <= c <==> b0 >= 0xC2) && c < 0x800) by (bit_vector)
            requires
                c == ((b0 & 0x1F) as u32) << 6 | ((b1 & 0x3f) as u32),
                0xc0 <= b0 && b0 <= 0xdf,
        ;
    } else if is_leading_byte_width_3(b0) {
        let (b1, b2) = (bytes[1], bytes[2]);
        let c = codepoint_width_3(b0, b1, b2);
        assert((0x800 <= c <==> !(b0 == 0xE0 && b1 < 0xA0)) && ((0xD800 <= c && c <= 0xDFFF) <==> (
        b0 == 0xED && b1 > 0x9F))) by (bit_vector)
            requires
                c == ((b0 & 0x0F) as u32) << 12 | ((b1 & 0x3f) as u32) << 6 | ((b2 & 0x3f) as u32),
                0xe0 <= b0 && b0 <= 0xef,
                0x80 <= b1 && b1 <= 0xbf,
        ;
    } else {
        let (b1, b2, b3) = (bytes[1], bytes[2], bytes[3]);
        let c = codepoint_width_4(b0, b1, b2, b3);
        assert((0x10000 <= c <==> !(b0 == 0xF0 && b1 < 0x90)) && (c <= 0x10FFFF <==> (b0 < 0xF4 || (
        b0 == 0xF4 && b1 <= 0x8F)))) by (bit_vector)
            requires
                c == ((b0 & 0x07) as u32) << 18 | ((b1 & 0x3f) as u32) << 12 | ((b2 & 0x3f) as u32)
                    << 6 | ((b3 & 0x3f) as u32),
                0xf0 <= b0 && b0 <= 0xf7,
                0x80 <= b1 && b1 <= 0xbf,
        ;
    }
}

/// [`scalar_start`] holds of exactly the bytes that more bytes can complete to the
/// encoding of one scalar.
pub proof fn lemma_scalar_start(bytes: Seq<u8>)
    ensures
        scalar_start(bytes) <==> bytes.len() > 0 && exists|rest: Seq<u8>|
            rest.len() > 0 && #[trigger] is_one_scalar(bytes + rest),
{
    if scalar_start(bytes) {
        let lead = bytes[0];
        let missing = (announced_len(lead) - bytes.len()) as nat;
        let second: u8 = if lead == 0xE0 || lead == 0xF0 {
            0xA0
        } else {
            0x80
        };
        let rest = Seq::new(
            missing,
            |i: int|
                if bytes.len() + i == 1 {
                    second
                } else {
                    0x80u8
                },
        );
        let whole = bytes + rest;
        assert(forall|i: int| 1 <= i < whole.len() ==> is_continuation_byte(#[trigger] whole[i]));
        assert(valid_leading_and_continuation_bytes_first_codepoint(whole)) by {
            assert(is_continuation_byte(whole[1]));
            assert(whole.len() >= 3 ==> is_continuation_byte(whole[2]));
            assert(whole.len() >= 4 ==> is_continuation_byte(whole[3]));
        }
        lemma_first_scalar_bytes(whole);
        assert(is_one_scalar(whole));
    }
    if bytes.len() > 0 && exists|rest: Seq<u8>|
        rest.len() > 0 && #[trigger] is_one_scalar(bytes + rest) {
        let rest = choose|rest: Seq<u8>| rest.len() > 0 && #[trigger] is_one_scalar(bytes + rest);
        lemma_front_of_scalar(bytes, rest);
    }
}

/// The front of the encoding of one scalar is the start of a sequence.
proof fn lemma_front_of_scalar(front: Seq<u8>, rest: Seq<u8>)
    requires
        front.len() > 0,
        rest.len() > 0,
        is_one_scalar(front + rest),
    ensures
        scalar_start(front),
{
    let whole = front + rest;
    lemma_first_scalar_bytes(whole);
    assert(forall|i: int| 0 <= i < front.len() ==> front[i] == whole[i]);
}

/// The number of bytes at the end of `bytes` that are the start of a sequence, which
/// are one to three; 0 where there are none.
pub open spec fn kept_len(bytes: Seq<u8>) -> int {
    let len = bytes.len() as int;
    if len >= 1 && scalar_start(bytes.skip(len - 1)) {
        1
    } else if len >= 2 && scalar_start(bytes.skip(len - 2)) {
        2
    } else if len >= 3 && scalar_start(bytes.skip(len - 3)) {
        3
    } else {
        0
    }
}

/// Bytes end with at most one start of a sequence, which [`kept_len`] finds.
pub proof fn lemma_kept_len(bytes: Seq<u8>)
    ensures
        0 <= kept_len(bytes) <= 3,
        kept_len(bytes) <= bytes.len(),
        kept_len(bytes) > 0 ==> scalar_start(bytes.skip(bytes.len() - kept_len(bytes))),
        forall|i: int|
            0 <= i < bytes.len() && scalar_start(#[trigger] bytes.skip(i)) ==> i == bytes.len()
                - kept_len(bytes),
{
    let at = bytes.len() - kept_len(bytes);
    assert forall|i: int| 0 <= i < bytes.len() && scalar_start(#[trigger] bytes.skip(i)) implies i
        == at by {
        assert(bytes.skip(i).len() <= 3);
        assert(kept_len(bytes) > 0);
        let (low, high) = if i < at {
            (i, at)
        } else {
            (at, i)
        };
        if low < high {
            assert(scalar_start(bytes.skip(low)) && scalar_start(bytes.skip(high)));
            assert(bytes.skip(low)[high - low] == bytes.skip(high)[0]);
        }
    }
}

/// A scalar in front of other bytes is no part of the start that they end with.
proof fn lemma_kept_behind_scalar(bytes: Seq<u8>)
    requires
        valid_first_scalar(bytes),
    ensures
        kept_len(bytes) == kept_len(pop_first_scalar(bytes)),
{
    let len = length_of_first_scalar(bytes);
    let rest = pop_first_scalar(bytes);
    lemma_kept_len(bytes);
    lemma_kept_len(rest);
    if kept_len(rest) > 0 {
        let i = rest.len() - kept_len(rest);
        assert(rest.skip(i) =~= bytes.skip(len + i));
    }
    if kept_len(bytes) > 0 {
        let i = bytes.len() - kept_len(bytes);
        let start = bytes.skip(i);
        assert(start[0] == bytes[i]);
        if i < len {
            assert(i == 0 ==> bytes.len() < len);
            assert(i > 0 ==> is_continuation_byte(bytes[i]));
        } else {
            assert(rest.skip(i - len) =~= start);
        }
    }
}

/// Valid UTF-8 does not end with the start of a sequence.
proof fn lemma_valid_keeps_nothing(bytes: Seq<u8>)
    requires
        valid_utf8(bytes),
    ensures
        kept_len(bytes) == 0,
    decreases bytes.len(),
{
    if bytes.len() > 0 {
        lemma_kept_behind_scalar(bytes);
        lemma_valid_keeps_nothing(pop_first_scalar(bytes));
    }
}

/// Check if `bytes` is the start of a multi-byte UTF-8 sequence that can still
/// become valid.
fn is_scalar_start(bytes: &[u8]) -> (res: bool)
    ensures
        res == scalar_start(bytes@),
{
    if !is_incomplete_start(bytes) || bytes[0] < 0xC2 || bytes[0] > 0xF4 {
        return false;
    }
    if bytes.len() < 2 {
        return true;
    }
    match bytes[0] {
        0xE0 => bytes[1] >= 0xA0,
        0xED => bytes[1] <= 0x9F,
        0xF0 => bytes[1] >= 0x90,
        0xF4 => bytes[1] <= 0x8F,
        _ => true,
    }
}

/// Returns the index at which the start of a sequence begins that `bytes` ends with;
/// the length of `bytes` where it ends with none.
fn incomplete_tail(bytes: &[u8]) -> (at: usize)
    ensures
        at == bytes@.len() - kept_len(bytes@),
{
    let len: usize = bytes.len();
    let mut n: usize = 1;
    while n < MAX_PARTIAL && n <= len
        invariant
            1 <= n <= MAX_PARTIAL,
            len == bytes@.len(),
            forall|m: int| 1 <= m < n ==> !scalar_start(#[trigger] bytes@.skip(len - m)),
        decreases MAX_PARTIAL - n,
    {
        let tail = slice_subrange(bytes, len - n, len);
        assert(tail@ =~= bytes@.skip(len - n));
        if is_scalar_start(tail) {
            proof {
                lemma_kept_len(bytes@);
            }
            return len - n;
        }
        n += 1;
    }
    len
}

/// The bytes that stay buffered after `data` arrives behind `pending`: the start of a
/// sequence at their end.
pub open spec fn kept_bytes(pending: Seq<u8>, data: Seq<u8>) -> Seq<u8> {
    let combined = pending + data;
    combined.skip(combined.len() - kept_len(combined))
}

/// The bytes that are released when `data` arrives behind `pending`: all that do not
/// stay buffered.
pub open spec fn released_bytes(pending: Seq<u8>, data: Seq<u8>) -> Seq<u8> {
    let combined = pending + data;
    combined.take(combined.len() - kept_len(combined))
}

/// The text that is released when `data` arrives behind `pending`.
pub open spec fn released_text(pending: Seq<u8>, data: Seq<u8>) -> Seq<char> {
    decoded(released_bytes(pending, data))
}

/// Buffers incomplete trailing UTF-8 bytes across successive `accumulate` calls.
pub struct Utf8Accumulator {
    /// Leftover bytes from the previous call (0..=3 bytes).
    partial: [u8; MAX_PARTIAL],
    partial_len: usize,
}

impl Utf8Accumulator {
    /// The buffered bytes.
    pub closed spec fn pending(&self) -> Seq<u8> {
        self.partial@.take(self.partial_len as int)
    }

    /// What is buffered is nothing or the start of a sequence, so it has at most
    /// three bytes.
    pub closed spec fn wf(&self) -> bool {
        &&& self.partial_len < MAX_PARTIAL
        &&& self.pending().len() == 0 || scalar_start(self.pending())
    }

    pub fn new() -> (res: Self)
        ensures
            res.wf(),
            res.pending() == Seq::<u8>::empty(),
    {
        Self { partial: [0, 0, 0, 0], partial_len: 0 }
    }

    /// The buffer never holds more than three bytes, and only such as can still become
    /// a character.
    pub proof fn lemma_pending_bound(&self)
        requires
            self.wf(),
        ensures
            self.pending().len() <= 3,
            self.pending().len() == 0 || scalar_start(self.pending()),
    {
    }

    /// Accumulate raw bytes and return a valid UTF-8 string.
    ///
    /// Any incomplete trailing sequence is buffered internally and prepended to
    /// the next call. Invalid bytes that cannot form a valid sequence are
    /// replaced with U+FFFD. The result is borrowed when nothing was buffered and
    /// the input is valid UTF-8.
    pub fn accumulate<'a>(&mut self, data: &'a [u8]) -> (res: Cow<'a, str>)
        requires
            old(self).wf(),
        ensures
            final(self).wf(),
            final(self).pending() == kept_bytes(old(self).pending(), data@),
            res@ == released_text(old(self).pending(), data@),
            res is Borrowed <==> old(self).pending().len() == 0 && valid_utf8(data@),
            ({
                let released = released_bytes(old(self).pending(), data@);
                !valid_utf8(released) ==> replaces_first_invalid(released, res@)
            }),
    {
        let ghost whole = self.pending() + data@;
        proof {
            lemma_kept_len(whole);
        }
        // Fast path: no leftover and input is valid UTF-8.
        if self.partial_len == 0 {
            assert(whole =~= data@);
            if let Ok(s) = from_utf8(data) {
                proof {
                    lemma_valid_keeps_nothing(whole);
                    assert(whole.skip(whole.len() as int) =~= self.pending());
                    assert(whole.take(whole.len() as int) =~= whole);
                }
                return Cow::Borrowed(s);
            }
        }
        // Slow path: combine leftover + new data, split off the incomplete tail.

        let mut combined: Vec<u8> = Vec::new();
        combined.extend_from_slice(slice_subrange(self.partial.as_slice(), 0, self.partial_len));
        combined.extend_from_slice(data);
        assert(combined@ =~= whole);
        self.partial_len = 0;

        if utf8_valid_prefix_len(combined.as_slice()) == combined.len() {
            // Everything is valid UTF-8.
            proof {
                lemma_valid_keeps_nothing(whole);
                assert(whole.skip(whole.len() as int) =~= self.pending());
                assert(whole.take(whole.len() as int) =~= whole);
            }
            return Cow::Owned(from_utf8_lossy(combined.as_slice()));
        }
        let at: usize = incomplete_tail(combined.as_slice());
        let front = slice_subrange(combined.as_slice(), 0, at);
        assert(front@ =~= whole.take(at as int));
        let trailing = slice_subrange(combined.as_slice(), at, combined.len());
        assert(trailing@ =~= whole.skip(at as int));

        // Buffer the trailing incomplete sequence for next call.
        let mut i: usize = 0;
        while i < trailing.len()
            invariant
                i <= trailing@.len() < 4,
                self.partial_len == 0,
                forall|j: int| 0 <= j < i ==> self.partial@[j] == trailing@[j],
            decreases trailing@.len() - i,
        {
            self.partial[i] = trailing[i];
            i += 1;
        }
        self.partial_len = trailing.len();
        assert(self.pending() =~= trailing@);

        // Invalid bytes before it are left to lossy decoding.
        Cow::Owned(from_utf8_lossy(front))
    }
}

/// The text that successive `accumulate` calls return for `chunks`, joined, where
/// `pending` is buffered before the first of them.
pub open spec fn stream_text(pending: Seq<u8>, chunks: Seq<Seq<u8>>) -> Seq<char>
    decreases chunks.len(),
{
    if chunks.len() == 0 {
        seq![]
    } else {
        released_text(pending, chunks[0]) + stream_text(
            kept_bytes(pending, chunks[0]),
            chunks.drop_first(),
        )
    }
}

/// The bytes that are buffered after successive `accumulate` calls for `chunks`.
pub open spec fn stream_pending(pending: Seq<u8>, chunks: Seq<Seq<u8>>) -> Seq<u8>
    decreases chunks.len(),
{
    if chunks.len() == 0 {
        pending
    } else {
        stream_pending(kept_bytes(pending, chunks[0]), chunks.drop_first())
    }
}

/// A front that ends inside of the next character is the start of that character.
proof fn lemma_front_inside_character(
    front: Seq<u8>,
    rest: Seq<u8>,
    text: Seq<u8>,
    cut: Seq<u8>,
)
    requires
        front + rest == text + cut,
        valid_utf8(text),
        cut.len() == 0 || scalar_start(cut),
        front.len() > 0,
        text.len() > 0 ==> front.len() < length_of_first_scalar(text),
    ensures
        kept_len(front) == front.len(),
{
    assert forall|i: int| 0 <= i < front.len() implies front[i] == (text + cut)[i] by {
        assert((front + rest)[i] == front[i]);
    }
    if text.len() > 0 {
        let scalar = text.take(length_of_first_scalar(text));
        assert(valid_first_scalar(scalar));
        assert(front + scalar.skip(front.len() as int) =~= scalar);
        lemma_front_of_scalar(front, scalar.skip(front.len() as int));
    } else {
        assert(forall|i: int| 0 <= i < front.len() ==> front[i] == cut[i]);
    }
    lemma_kept_len(front);
    assert(front.skip(0) =~= front);
}

/// Where a text can be cut behind its first character, it can be cut there with that
/// character in front.
proof fn lemma_cut_behind_scalar(text: Seq<u8>, m: int)
    requires
        text.len() > 0,
        valid_utf8(text),
        0 <= m <= pop_first_scalar(text).len(),
        valid_utf8(pop_first_scalar(text).take(m)),
        decode_utf8(pop_first_scalar(text)) == decode_utf8(pop_first_scalar(text).take(m))
            + decode_utf8(pop_first_scalar(text).skip(m)),
    ensures
        ({
            let n = length_of_first_scalar(text) + m;
            &&& valid_utf8(text.take(n))
            &&& text.skip(n) == pop_first_scalar(text).skip(m)
            &&& decode_utf8(text) == decode_utf8(text.take(n)) + decode_utf8(text.skip(n))
        }),
{
    let len = length_of_first_scalar(text);
    let more = pop_first_scalar(text);
    let front = text.take(len + m);
    assert(forall|i: int| 0 <= i < front.len() ==> front[i] == text[i]);
    assert(valid_first_scalar(front));
    assert(pop_first_scalar(front) =~= more.take(m));
    assert(text.skip(len + m) =~= more.skip(m));
    assert(decode_utf8(text) =~= decode_utf8(front) + decode_utf8(more.skip(m)));
}

/// A front that holds the first character of the text starts with that character, and
/// what follows it is a front of what follows in the text.
proof fn lemma_front_with_character(front: Seq<u8>, rest: Seq<u8>, text: Seq<u8>, cut: Seq<u8>)
    requires
        front + rest == text + cut,
        valid_utf8(text),
        text.len() > 0,
        length_of_first_scalar(text) <= front.len(),
    ensures
        ({
            let len = length_of_first_scalar(text);
            &&& 0 < len <= text.len()
            &&& front.take(len) == text.take(len)
            &&& front.skip(len) + rest == pop_first_scalar(text) + cut
            &&& kept_len(front) == kept_len(front.skip(len))
        }),
{
    let len = length_of_first_scalar(text);
    assert forall|i: int| 0 <= i < len implies front[i] == text[i] by {
        assert((front + rest)[i] == front[i] && (text + cut)[i] == text[i]);
    }
    assert(front.take(len) =~= text.take(len));
    assert(front.skip(len) + rest =~= (front + rest).skip(len));
    assert(pop_first_scalar(text) + cut =~= (text + cut).skip(len));
    assert(valid_first_scalar(front));
    assert(pop_first_scalar(front) =~= front.skip(len));
    lemma_kept_behind_scalar(front);
}

/// `front` is the front of a stream that is `text` and then `cut`: it is released up
/// to a boundary of the text, and decoding can go on there.
spec fn is_released_at(
    front: Seq<u8>,
    rest: Seq<u8>,
    text: Seq<u8>,
    cut: Seq<u8>,
    n: int,
) -> bool {
    &&& 0 <= n <= front.len()
    &&& n <= text.len()
    &&& front.take(n) == text.take(n)
    &&& valid_utf8(text.take(n))
    &&& valid_utf8(text.skip(n))
    &&& decode_utf8(text) == decode_utf8(text.take(n)) + decode_utf8(text.skip(n))
    &&& front.skip(n) + rest == text.skip(n) + cut
}

/// What holds behind the first character of a text holds with that character in front.
proof fn lemma_released_with_character(
    front: Seq<u8>,
    rest: Seq<u8>,
    text: Seq<u8>,
    cut: Seq<u8>,
    m: int,
)
    requires
        text.len() > 0,
        valid_utf8(text),
        length_of_first_scalar(text) <= front.len(),
        front.take(length_of_first_scalar(text)) == text.take(length_of_first_scalar(text)),
        is_released_at(
            front.skip(length_of_first_scalar(text)),
            rest,
            pop_first_scalar(text),
            cut,
            m,
        ),
    ensures
        is_released_at(front, rest, text, cut, length_of_first_scalar(text) + m),
{
    let len = length_of_first_scalar(text);
    let (after, more) = (front.skip(len), pop_first_scalar(text));
    lemma_cut_behind_scalar(text, m);
    assert(front.take(len + m) =~= front.take(len) + after.take(m));
    assert(text.take(len + m) =~= text.take(len) + more.take(m));
    assert(front.skip(len + m) =~= after.skip(m));
}

/// Where a stream is valid UTF-8 and nothing or the start of one more character, any
/// front of it is released up to a boundary of the text.
proof fn lemma_front_of_stream(front: Seq<u8>, rest: Seq<u8>, text: Seq<u8>, cut: Seq<u8>)
    requires
        front + rest == text + cut,
        valid_utf8(text),
        cut.len() == 0 || scalar_start(cut),
    ensures
        is_released_at(front, rest, text, cut, front.len() - kept_len(front)),
    decreases front.len(),
{
    if text.len() > 0 && length_of_first_scalar(text) <= front.len() {
        let after = front.skip(length_of_first_scalar(text));
        lemma_front_with_character(front, rest, text, cut);
        lemma_front_of_stream(after, rest, pop_first_scalar(text), cut);
        lemma_released_with_character(front, rest, text, cut, after.len() - kept_len(after));
    } else {
        if front.len() > 0 {
            lemma_front_inside_character(front, rest, text, cut);
        }
        assert(front.skip(0) =~= front);
        assert(text.skip(0) =~= text);
        assert(front.take(0) =~= text.take(0));
        assert(decode_utf8(text.take(0)) =~= seq![]);
        assert(decode_utf8(text) =~= decode_utf8(text.take(0)) + decode_utf8(text));
    }
}

/// However a stream is split into chunks behind what is buffered: where it is valid
/// UTF-8, or valid UTF-8 and the start of one more character, the chunks give exactly
/// the characters of the text, and what stays buffered at its end is that start.
pub proof fn law_split_text_is_rejoined(
    pending: Seq<u8>,
    chunks: Seq<Seq<u8>>,
    text: Seq<u8>,
    cut: Seq<u8>,
)
    requires
        pending.len() == 0 || scalar_start(pending),
        pending + chunks.flatten() == text + cut,
        valid_utf8(text),
        cut.len() == 0 || scalar_start(cut),
    ensures
        stream_text(pending, chunks) == decode_utf8(text),
        stream_pending(pending, chunks) == cut,
    decreases chunks.len(),
{
    if chunks.len() == 0 {
        assert(pending + chunks.flatten() =~= pending);
        lemma_front_of_stream(pending, seq![], text, cut);
        lemma_kept_len(pending);
        assert(pending.skip(0) =~= pending);
        assert(kept_len(pending) == pending.len());
        assert(text.len() == 0) by {
            if text.len() > 0 {
                assert(forall|i: int| 0 <= i < text.len() ==> pending[i] == (text + cut)[i]);
                assert(forall|i: int| 0 <= i < text.len() ==> pending[i] == text[i]);
            }
        }
        assert(text + cut =~= cut);
        assert(decode_utf8(text) =~= seq![]);
    } else {
        let rest = chunks.drop_first().flatten();
        let combined = pending + chunks[0];
        assert(pending + chunks.flatten() =~= combined + rest);
        lemma_front_of_stream(combined, rest, text, cut);
        lemma_kept_len(combined);
        let n = combined.len() - kept_len(combined);
        law_split_text_is_rejoined(combined.skip(n), chunks.drop_first(), text.skip(n), cut);
    }
}

/// A character that is cut anywhere between two reads comes out whole with the second
/// of them, and no half of it with the first: what was buffered and read before it, be
/// it valid or not, is released without it.
pub proof fn law_cut_character(pending: Seq<u8>, before: Seq<u8>, front: Seq<u8>, back: Seq<u8>)
    requires
        front.len() > 0,
        back.len() > 0,
        is_one_scalar(front + back),
    ensures
        released_text(pending, before + front) == decoded(pending + before),
        kept_bytes(pending, before + front) == front,
        released_text(front, back) == seq![decode_first_scalar(front + back) as char],
        kept_bytes(front, back) == Seq::<u8>::empty(),
{
    let first = pending + (before + front);
    let at = (pending + before).len() as int;
    lemma_front_of_scalar(front, back);
    assert(first.skip(at) =~= front);
    lemma_kept_len(first);
    assert(first.take(at) =~= pending + before);
    let whole = front + back;
    assert(pop_first_scalar(whole) =~= seq![]);
    assert(valid_utf8(seq![]));
    assert(valid_utf8(whole));
    lemma_valid_keeps_nothing(whole);
    assert(whole.take(whole.len() as int) =~= whole);
    assert(whole.skip(whole.len() as int) =~= seq![]);
    assert(decode_utf8(seq![]) =~= seq![]);
    assert(decode_utf8(whole) =~= seq![decode_first_scalar(whole) as char]);
}

/// A byte that can begin no character, between texts that are valid, is replaced by one
/// U+FFFD, and the texts come out as they are. Nothing stays buffered.
pub proof fn law_invalid_byte_is_replaced(
    front: Seq<u8>,
    byte: u8,
    back: Seq<u8>,
    text: Seq<char>,
)
    requires
        valid_utf8(front),
        valid_utf8(back),
        0x80 <= byte <= 0xC1 || 0xF5 <= byte,
        replaces_first_invalid(released_bytes(seq![], front + seq![byte] + back), text),
    ensures
        kept_bytes(seq![], front + seq![byte] + back) == Seq::<u8>::empty(),
        text == decode_utf8(front).push('\u{FFFD}') + decode_utf8(back),
{
    let data = front + seq![byte] + back;
    let tail = seq![byte] + back;
    let combined = Seq::<u8>::empty() + data;
    assert(combined =~= data);
    assert(!valid_first_scalar(tail)) by {
        if valid_first_scalar(tail) {
            lemma_first_scalar_bytes(tail);
        }
    }
    lemma_prefix_behind_valid(front, tail);
    assert(front + tail =~= data);
    lemma_kept_behind_invalid_byte(front, byte, back);
    assert(data.take(data.len() as int) =~= data);
    assert(data.skip(data.len() as int) =~= seq![]);
    let n = front.len() as int;
    let k = choose|k: int|
        #[trigger] invalid_sequence(data, n, k) && text == decode_utf8(data.take(n)).push(
            '\u{FFFD}',
        ) + decoded(data.skip(n + k));
    if k > 1 {
        assert(is_continuation_byte(data[n + 1]));
        assert(data[n + 1] == back[0]);
        assert(valid_first_scalar(back));
    }
    assert(data.take(n) =~= front);
    assert(data.skip(n + 1) =~= back);
}

/// Behind valid UTF-8, the valid prefix goes on as it does in what follows.
proof fn lemma_prefix_behind_valid(front: Seq<u8>, tail: Seq<u8>)
    requires
        valid_utf8(front),
        !valid_first_scalar(tail),
    ensures
        valid_prefix_len(front + tail) == front.len(),
    decreases front.len(),
{
    let whole = front + tail;
    if front.len() == 0 {
        assert(whole =~= tail);
    } else {
        assert(forall|i: int| 0 <= i < front.len() ==> whole[i] == front[i]);
        assert(valid_first_scalar(whole));
        assert(pop_first_scalar(whole) =~= pop_first_scalar(front) + tail);
        lemma_prefix_behind_valid(pop_first_scalar(front), tail);
    }
}

/// Valid UTF-8 behind a byte that can begin no character keeps nothing.
proof fn lemma_kept_behind_invalid_byte(front: Seq<u8>, byte: u8, back: Seq<u8>)
    requires
        valid_utf8(front),
        valid_utf8(back),
        0x80 <= byte <= 0xC1 || 0xF5 <= byte,
    ensures
        kept_len(front + seq![byte] + back) == 0,
{
    let data = front + seq![byte] + back;
    let n = front.len() as int;
    lemma_kept_len(data);
    lemma_valid_keeps_nothing(front);
    lemma_valid_keeps_nothing(back);
    lemma_kept_len(back);
    if kept_len(data) > 0 {
        let i = data.len() - kept_len(data);
        let start = data.skip(i);
        assert(start[0] == data[i]);
        if i > n {
            assert(start =~= back.skip(i - n - 1));
        } else if i == n {
            assert(data[i] == byte);
        } else {
            assert(start[n - i] == byte);
            assert(is_continuation_byte(start[n - i]));
            lemma_front_of_start(start, n - i);
            assert(start.take(n - i) =~= front.skip(i));
            lemma_kept_len(front);
        }
    }
}

/// A shorter front of the start of a sequence is the start of that sequence, too.
proof fn lemma_front_of_start(start: Seq<u8>, n: int)
    requires
        scalar_start(start),
        0 < n <= start.len(),
    ensures
        scalar_start(start.take(n)),
{
}

/// [`incomplete_start`] holds of exactly the bytes that more bytes can complete to a lead
/// byte and as many continuation bytes as it announces.
pub proof fn law_incomplete_start(bytes: Seq<u8>)
    ensures
        incomplete_start(bytes) <==> bytes.len() > 0 && exists|rest: Seq<u8>|
            {
                &&& rest.len() > 0
                &&& #[trigger] valid_leading_and_continuation_bytes_first_codepoint(bytes + rest)
                &&& length_of_first_codepoint(bytes + rest) == bytes.len() + rest.len()
            },
{
    if incomplete_start(bytes) {
        let missing = (announced_len(bytes[0]) - bytes.len()) as nat;
        let rest = Seq::new(missing, |i: int| 0x80u8);
        let whole = bytes + rest;
        assert(forall|i: int| 1 <= i < whole.len() ==> is_continuation_byte(#[trigger] whole[i]));
        assert(is_continuation_byte(whole[1]));
        assert(whole.len() >= 3 ==> is_continuation_byte(whole[2]));
        assert(whole.len() >= 4 ==> is_continuation_byte(whole[3]));
        assert(valid_leading_and_continuation_bytes_first_codepoint(whole));
        assert(length_of_first_codepoint(whole) == bytes.len() + rest.len());
    }
    if bytes.len() > 0 && exists|rest: Seq<u8>|
        {
            &&& rest.len() > 0
            &&& #[trigger] valid_leading_and_continuation_bytes_first_codepoint(bytes + rest)
            &&& length_of_first_codepoint(bytes + rest) == bytes.len() + rest.len()
        } {
        let rest = choose|rest: Seq<u8>|
            {
                &&& rest.len() > 0
                &&& #[trigger] valid_leading_and_continuation_bytes_first_codepoint(bytes + rest)
                &&& length_of_first_codepoint(bytes + rest) == bytes.len() + rest.len()
            };
        let whole = bytes + rest;
        assert(forall|i: int| 0 <= i < bytes.len() ==> bytes[i] == whole[i]);
    }
}

/// Bytes at the end of a read that no further bytes can complete are released with it,
/// and so is everything before them.
pub proof fn law_invalid_tail_is_released(pending: Seq<u8>, data: Seq<u8>)
    requires
        forall|i: int, rest: Seq<u8>|
            0 <= i < (pending + data).len() && rest.len() > 0 ==> !#[trigger] is_one_scalar(
                (pending + data).skip(i) + rest,
            ),
    ensures
        kept_bytes(pending, data) == Seq::<u8>::empty(),
        released_text(pending, data) == decoded(pending + data),
{
    let combined = pending + data;
    lemma_kept_len(combined);
    lemma_scalar_start(combined.skip(combined.len() - kept_len(combined)));
    assert(combined.skip(combined.len() as int) =~= seq![]);
    assert(combined.take(combined.len() as int) =~= combined);
}

} // verus!
