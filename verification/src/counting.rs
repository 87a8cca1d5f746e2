//! The mathematical model of the four stream counts.
//!
//! A stream is a `Seq<u8>`. Byte, line and word counts are plain folds
//! over the bytes. The character count is defined by a decoding scan that
//! walks the stream from the front: a complete UTF-8 sequence counts as
//! one character, a truncated multi-byte sequence at the end of the
//! available bytes is kept as a remainder for the next chunk, and an
//! invalid byte is skipped without aborting the pass.

use vstd::prelude::*;

verus! {

/// The ASCII whitespace set that delimits words: space, tab, line feed,
/// vertical tab, form feed, carriage return.
pub open spec fn is_ascii_space(b: u8) -> bool {
    b == 0x20 || b == 0x09 || b == 0x0A || b == 0x0B || b == 0x0C || b == 0x0D
}

/// Number of line-feed bytes in `s`.
pub open spec fn newline_count(s: Seq<u8>) -> nat
    decreases s.len(),
{
    if s.len() == 0 {
        0
    } else {
        newline_count(s.drop_last()) + if s.last() == 0x0A {
            1nat
        } else {
            0nat
        }
    }
}

/// The reported line count: a stream with content but no line feed still
/// counts as one line; an empty stream has none.
pub open spec fn line_total(s: Seq<u8>) -> nat {
    if s.len() > 0 && newline_count(s) == 0 {
        1
    } else {
        newline_count(s)
    }
}

/// Whether a word is in progress after reading `s`, given whether one was
/// in progress before it: only the most recent byte decides.
pub open spec fn word_active_after(s: Seq<u8>, init: bool) -> bool {
    if s.len() == 0 {
        init
    } else {
        !is_ascii_space(s.last())
    }
}

/// Number of word starts in `s`, given whether a word was already in
/// progress before `s`. A word starts at each non-whitespace byte that is
/// not preceded by another non-whitespace byte.
pub open spec fn word_count_from(s: Seq<u8>, init: bool) -> nat
    decreases s.len(),
{
    if s.len() == 0 {
        0
    } else {
        word_count_from(s.drop_last(), init) + if !is_ascii_space(s.last())
            && !word_active_after(s.drop_last(), init) {
            1nat
        } else {
            0nat
        }
    }
}

/// The word count of a whole stream: no word is in progress before the
/// first byte.
pub open spec fn word_total(s: Seq<u8>) -> nat {
    word_count_from(s, false)
}

/// The byte count of a stream.
pub open spec fn byte_total(s: Seq<u8>) -> nat {
    s.len()
}

/// Whether `b` is a UTF-8 continuation byte.
pub open spec fn is_continuation(b: u8) -> bool {
    0x80 <= b && b <= 0xBF
}

/// The length of the UTF-8 sequence that lead byte `b` introduces, and 0
/// for a byte that can lead no sequence (a bare continuation byte, or a
/// lead byte that can only form an overlong or out-of-range encoding).
pub open spec fn utf8_len(b: u8) -> nat {
    if b < 0x80 {
        1
    } else if 0xC2 <= b && b <= 0xDF {
        2
    } else if 0xE0 <= b && b <= 0xEF {
        3
    } else if 0xF0 <= b && b <= 0xF4 {
        4
    } else {
        0
    }
}

/// Whether `b` is valid as the second byte of a sequence led by `lead`.
/// The narrowed ranges exclude overlong encodings, surrogate code points
/// and code points beyond 0x10FFFF.
pub open spec fn valid_second(lead: u8, b: u8) -> bool {
    if lead == 0xE0 {
        0xA0 <= b && b <= 0xBF
    } else if lead == 0xED {
        0x80 <= b && b <= 0x9F
    } else if lead == 0xF0 {
        0x90 <= b && b <= 0xBF
    } else if lead == 0xF4 {
        0x80 <= b && b <= 0x8F
    } else {
        is_continuation(b)
    }
}

/// A complete, valid UTF-8 sequence stands at the head of `s`.
pub open spec fn complete_head(s: Seq<u8>) -> bool {
    let l = utf8_len(s[0]) as int;
    &&& s.len() > 0
    &&& l >= 1
    &&& s.len() >= l
    &&& (l < 2 || valid_second(s[0], s[1]))
    &&& (l < 3 || is_continuation(s[2]))
    &&& (l < 4 || is_continuation(s[3]))
}

/// All of `s` is a proper prefix of a valid multi-byte sequence: bytes
/// from the next chunk could still complete it.
pub open spec fn truncated_head(s: Seq<u8>) -> bool {
    let l = utf8_len(s[0]) as int;
    &&& s.len() > 0
    &&& l >= 2
    &&& s.len() < l
    &&& (s.len() < 2 || valid_second(s[0], s[1]))
    &&& (s.len() < 3 || is_continuation(s[2]))
}

/// One decoding pass over bytes that may still grow: the number of
/// characters found, and the undecoded tail that must be carried to the
/// next chunk because it may be the start of a split multi-byte sequence.
pub open spec fn scan(s: Seq<u8>) -> (nat, Seq<u8>)
    decreases s.len(),
{
    if s.len() == 0 {
        (0nat, Seq::empty())
    } else if complete_head(s) {
        let r = scan(s.skip(utf8_len(s[0]) as int));
        ((r.0 + 1) as nat, r.1)
    } else if truncated_head(s) {
        (0nat, s)
    } else {
        scan(s.skip(1))
    }
}

/// The number of characters decoded from `s` when no further bytes will
/// ever arrive: a truncated sequence can no longer complete, so its bytes
/// are skipped like any other invalid bytes.
pub open spec fn close_count(s: Seq<u8>) -> nat
    decreases s.len(),
{
    if s.len() == 0 {
        0
    } else if complete_head(s) {
        (close_count(s.skip(utf8_len(s[0]) as int)) + 1) as nat
    } else {
        close_count(s.skip(1))
    }
}

/// The character count of a whole stream.
pub open spec fn char_total(s: Seq<u8>) -> nat {
    close_count(s)
}

/// No stream holds more line feeds than bytes.
pub proof fn lemma_newline_count_le(s: Seq<u8>)
    ensures
        newline_count(s) <= s.len(),
    decreases s.len(),
{
    if s.len() > 0 {
        lemma_newline_count_le(s.drop_last());
    }
}

/// No stream holds more word starts than bytes.
pub proof fn lemma_word_count_le(s: Seq<u8>, init: bool)
    ensures
        word_count_from(s, init) <= s.len(),
    decreases s.len(),
{
    if s.len() > 0 {
        lemma_word_count_le(s.drop_last(), init);
    }
}

/// A scan finds at most one character per byte, and its carried tail is
/// at most 3 bytes: the longest proper prefix of a 4-byte sequence.
pub proof fn lemma_scan_le(s: Seq<u8>)
    ensures
        scan(s).0 <= s.len(),
        scan(s).1.len() <= 3,
    decreases s.len(),
{
    if s.len() == 0 {
    } else if complete_head(s) {
        lemma_scan_le(s.skip(utf8_len(s[0]) as int));
    } else if truncated_head(s) {
    } else {
        lemma_scan_le(s.skip(1));
    }
}

/// Chunking does not change what a scan finds: scanning `a + b` finds the
/// characters of `a` plus those of the tail carried out of `a` followed by
/// `b`, and carries the same tail out of both. This is the law that lets
/// the accumulator decode each chunk against only the saved remainder and
/// still count exactly the characters of the concatenated stream.
pub proof fn lemma_scan_append(a: Seq<u8>, b: Seq<u8>)
    ensures
        scan(a + b).0 == scan(a).0 + scan(scan(a).1 + b).0,
        scan(a + b).1 == scan(scan(a).1 + b).1,
    decreases a.len(),
{
    if a.len() == 0 {
        assert(a + b =~= b);
        assert(scan(a).1 + b =~= b);
    } else if complete_head(a) {
        let l = utf8_len(a[0]) as int;
        assert(complete_head(a + b));
        assert((a + b).skip(l) =~= a.skip(l) + b);
        lemma_scan_append(a.skip(l), b);
    } else if truncated_head(a) {
        assert(scan(a).1 + b =~= a + b);
    } else {
        // The head byte starts no sequence that `b` could complete: either
        // its lead byte is invalid, or a follow byte already present in `a`
        // is invalid, and that byte is unchanged in `a + b`.
        assert(!complete_head(a + b));
        assert(!truncated_head(a + b));
        assert((a + b).skip(1) =~= a.skip(1) + b);
        lemma_scan_append(a.skip(1), b);
    }
}

/// Finalizing after a streamed scan counts exactly the characters of the
/// whole stream: the characters the scan found plus those recovered from
/// its carried tail once no more bytes can arrive.
pub proof fn lemma_close_decompose(s: Seq<u8>)
    ensures
        close_count(s) == scan(s).0 + close_count(scan(s).1),
    decreases s.len(),
{
    if s.len() == 0 {
    } else if complete_head(s) {
        lemma_close_decompose(s.skip(utf8_len(s[0]) as int));
    } else if truncated_head(s) {
    } else {
        lemma_close_decompose(s.skip(1));
    }
}

/// Closing a stream finds at most one character per byte.
pub proof fn lemma_close_le(s: Seq<u8>)
    ensures
        close_count(s) <= s.len(),
    decreases s.len(),
{
    if s.len() == 0 {
    } else if complete_head(s) {
        lemma_close_le(s.skip(utf8_len(s[0]) as int));
    } else {
        lemma_close_le(s.skip(1));
    }
}

/// Word counting composes across chunks: the words of `a + b` are the
/// words of `a` plus the words of `b` counted with the word-in-progress
/// state left behind by `a`. Feeding a stream one byte at a time and
/// feeding it in one block therefore count the same words.
pub proof fn lemma_word_count_append(a: Seq<u8>, b: Seq<u8>, init: bool)
    ensures
        word_count_from(a + b, init) == word_count_from(a, init) + word_count_from(
            b,
            word_active_after(a, init),
        ),
        word_active_after(a + b, init) == word_active_after(b, word_active_after(a, init)),
    decreases b.len(),
{
    if b.len() == 0 {
        assert(a + b =~= a);
    } else {
        assert((a + b).drop_last() =~= a + b.drop_last());
        assert((a + b).last() == b.last());
        lemma_word_count_append(a, b.drop_last(), init);
    }
}

/// An empty stream has all four counts at 0.
pub proof fn lemma_empty_stream(s: Seq<u8>)
    requires
        s.len() == 0,
    ensures
        byte_total(s) == 0,
        word_total(s) == 0,
        line_total(s) == 0,
        char_total(s) == 0,
{
}

/// The trailing-line rule, both ways: a non-empty stream without a line
/// feed reports exactly one line, and a stream that ends in a line feed
/// reports exactly its line-feed count, with no extra implicit line.
pub proof fn lemma_line_rules(s: Seq<u8>)
    ensures
        s.len() > 0 && newline_count(s) == 0 ==> line_total(s) == 1,
        s.len() > 0 && s.last() == 0x0A ==> line_total(s) == newline_count(s),
{
}

/// The four counts are functions of the stream's bytes alone: any two
/// chunkings whose concatenations agree yield the same counters, so how a
/// stream was split across reads can never show in the result.
pub proof fn lemma_chunking_irrelevant(c1: Seq<Seq<u8>>, c2: Seq<Seq<u8>>)
    requires
        c1.flatten() == c2.flatten(),
    ensures
        byte_total(c1.flatten()) == byte_total(c2.flatten()),
        word_total(c1.flatten()) == word_total(c2.flatten()),
        line_total(c1.flatten()) == line_total(c2.flatten()),
        char_total(c1.flatten()) == char_total(c2.flatten()),
{
}

/// Appending one byte extends the line-feed count by at most one.
pub proof fn lemma_newline_push(s: Seq<u8>, b: u8)
    ensures
        newline_count(s.push(b)) == newline_count(s) + if b == 0x0A {
            1nat
        } else {
            0nat
        },
{
    assert(s.push(b).drop_last() =~= s);
}

/// Appending one byte starts a word exactly on a transition from
/// no-word-in-progress to a non-whitespace byte.
pub proof fn lemma_word_push(s: Seq<u8>, b: u8, init: bool)
    ensures
        word_count_from(s.push(b), init) == word_count_from(s, init) + if !is_ascii_space(b)
            && !word_active_after(s, init) {
            1nat
        } else {
            0nat
        },
        word_active_after(s.push(b), init) == !is_ascii_space(b),
{
    assert(s.push(b).drop_last() =~= s);
}

/// Executable form of [`is_ascii_space`].
pub fn is_ascii_space_x(b: u8) -> (r: bool)
    ensures
        r == is_ascii_space(b),
{
    b == 0x20 || b == 0x09 || b == 0x0A || b == 0x0B || b == 0x0C || b == 0x0D
}

/// Executable form of [`is_continuation`].
fn is_continuation_x(b: u8) -> (r: bool)
    ensures
        r == is_continuation(b),
{
    0x80 <= b && b <= 0xBF
}

/// Executable form of [`utf8_len`].
fn utf8_len_x(b: u8) -> (l: usize)
    ensures
        l == utf8_len(b),
{
    if b < 0x80 {
        1
    } else if 0xC2 <= b && b <= 0xDF {
        2
    } else if 0xE0 <= b && b <= 0xEF {
        3
    } else if 0xF0 <= b && b <= 0xF4 {
        4
    } else {
        0
    }
}

/// Executable form of [`valid_second`].
fn valid_second_x(lead: u8, b: u8) -> (r: bool)
    ensures
        r == valid_second(lead, b),
{
    if lead == 0xE0 {
        0xA0 <= b && b <= 0xBF
    } else if lead == 0xED {
        0x80 <= b && b <= 0x9F
    } else if lead == 0xF0 {
        0x90 <= b && b <= 0xBF
    } else if lead == 0xF4 {
        0x80 <= b && b <= 0x8F
    } else {
        is_continuation_x(b)
    }
}

/// Decodes one chunk of a stream that may still grow: returns the number
/// of characters found and the undecoded tail to carry to the next chunk.
#[verifier::loop_isolation(false)]
pub fn scan_chunk(buf: &[u8]) -> (r: (u64, Vec<u8>))
    ensures
        r.0 == scan(buf@).0,
        r.1@ == scan(buf@).1,
{
    let n = buf.len();
    let mut i: usize = 0;
    let mut count: u64 = 0;
    let mut tail: Vec<u8> = Vec::new();
    let mut done: bool = false;
    proof {
        assert(buf@.skip(0) =~= buf@);
    }
    while i < n
        invariant
            i <= n,
            count <= i,
            done ==> i == n && scan(buf@).0 == count && scan(buf@).1 == tail@,
            !done ==> scan(buf@).0 == count + scan(buf@.skip(i as int)).0 && scan(buf@).1 == scan(
                buf@.skip(i as int),
            ).1 && tail@ == Seq::<u8>::empty(),
        decreases n - i,
    {
        let ghost rest = buf@.skip(i as int);
        let b = buf[i];
        let l = utf8_len_x(b);
        if l == 0 {
            proof {
                assert(rest.skip(1) =~= buf@.skip(i as int + 1));
            }
            i = i + 1;
        } else if l <= n - i {
            let ok = (l < 2 || valid_second_x(b, buf[i + 1])) && (l < 3 || is_continuation_x(
                buf[i + 2],
            )) && (l < 4 || is_continuation_x(buf[i + 3]));
            if ok {
                proof {
                    assert(complete_head(rest));
                    assert(rest.skip(l as int) =~= buf@.skip(i as int + l as int));
                }
                count = count + 1;
                i = i + l;
            } else {
                proof {
                    assert(!complete_head(rest));
                    assert(!truncated_head(rest));
                    assert(rest.skip(1) =~= buf@.skip(i as int + 1));
                }
                i = i + 1;
            }
        } else {
            // Fewer than `l` bytes remain: the sequence is either a
            // truncated head to carry over, or already invalid.
            let ok = (n - i < 2 || valid_second_x(b, buf[i + 1])) && (n - i < 3
                || is_continuation_x(buf[i + 2]));
            if ok {
                proof {
                    assert(truncated_head(rest));
                }
                let mut j = i;
                while j < n
                    invariant
                        i <= j <= n,
                        tail@ == buf@.subrange(i as int, j as int),
                    decreases n - j,
                {
                    tail.push(buf[j]);
                    j = j + 1;
                }
                proof {
                    assert(tail@ =~= rest);
                }
                done = true;
                i = n;
            } else {
                proof {
                    assert(!complete_head(rest));
                    assert(!truncated_head(rest));
                    assert(rest.skip(1) =~= buf@.skip(i as int + 1));
                }
                i = i + 1;
            }
        }
    }
    proof {
        if !done {
            assert(buf@.skip(n as int) =~= Seq::<u8>::empty());
        }
    }
    (count, tail)
}

/// Decodes the bytes still held when the stream ends: returns the number
/// of characters found; a truncated sequence can no longer complete and
/// counts nothing.
#[verifier::loop_isolation(false)]
pub fn close_chunk(buf: &[u8]) -> (r: u64)
    ensures
        r == close_count(buf@),
{
    let n = buf.len();
    let mut i: usize = 0;
    let mut count: u64 = 0;
    proof {
        assert(buf@.skip(0) =~= buf@);
    }
    while i < n
        invariant
            i <= n,
            count <= i,
            close_count(buf@) == count + close_count(buf@.skip(i as int)),
        decreases n - i,
    {
        let ghost rest = buf@.skip(i as int);
        let b = buf[i];
        let l = utf8_len_x(b);
        if l >= 1 && l <= n - i {
            let ok = (l < 2 || valid_second_x(b, buf[i + 1])) && (l < 3 || is_continuation_x(
                buf[i + 2],
            )) && (l < 4 || is_continuation_x(buf[i + 3]));
            if ok {
                proof {
                    assert(complete_head(rest));
                    assert(rest.skip(l as int) =~= buf@.skip(i as int + l as int));
                }
                count = count + 1;
                i = i + l;
            } else {
                proof {
                    assert(!complete_head(rest));
                    assert(rest.skip(1) =~= buf@.skip(i as int + 1));
                }
                i = i + 1;
            }
        } else {
            proof {
                assert(!complete_head(rest));
                assert(rest.skip(1) =~= buf@.skip(i as int + 1));
            }
            i = i + 1;
        }
    }
    proof {
        assert(buf@.skip(n as int) =~= Seq::<u8>::empty());
    }
    count
}

} // verus!
