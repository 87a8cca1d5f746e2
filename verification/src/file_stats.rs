//! The stream accumulator: consumes a byte stream chunk by chunk and
//! produces the four counters of [`crate::dao::Stats`].

use vstd::prelude::*;
use crate::counting;
use crate::dao::Stats;

verus! {

/// The stream accumulator: owns the four running counters, the remainder
/// of a possibly split UTF-8 sequence, and the word-in-progress flag. It
/// is fed the stream one chunk at a time, in order, and finalized once the
/// stream is exhausted; all state lives for one pass over one stream.
pub struct Accumulator {
    bytes: u64,
    words: u64,
    lines: u64,
    chars: u64,
    rem: Vec<u8>,
    word_active: bool,
    seen_any: bool,
    hist: Ghost<Seq<u8>>,
}

impl Accumulator {
    /// The bytes fed so far, in order.
    pub closed spec fn consumed(self) -> Seq<u8> {
        self.hist@
    }

    /// The accumulator's invariant: every piece of state agrees with the
    /// mathematical counts of the bytes consumed so far.
    pub closed spec fn wf(self) -> bool {
        &&& self.bytes == self.consumed().len()
        &&& self.lines == counting::newline_count(self.consumed())
        &&& self.words == counting::word_total(self.consumed())
        &&& self.word_active == counting::word_active_after(self.consumed(), false)
        &&& self.seen_any == (self.consumed().len() > 0)
        &&& self.chars == counting::scan(self.consumed()).0
        &&& self.rem@ == counting::scan(self.consumed()).1
    }

    /// A fresh accumulator: counters at 0, no remainder, no word or byte
    /// seen yet.
    pub fn new() -> (r: Accumulator)
        ensures
            r.wf(),
            r.consumed() == Seq::<u8>::empty(),
    {
        Accumulator {
            bytes: 0,
            words: 0,
            lines: 0,
            chars: 0,
            rem: Vec::new(),
            word_active: false,
            seen_any: false,
            hist: Ghost(Seq::empty()),
        }
    }

    /// Consumes the next chunk of the stream: adds its bytes, line feeds,
    /// word starts and decodable characters to the counters, and carries
    /// any truncated UTF-8 tail over to the next chunk.
    #[verifier::loop_isolation(false)]
    pub fn feed(&mut self, chunk: &[u8])
        requires
            old(self).wf(),
            old(self).consumed().len() + chunk@.len() <= u64::MAX,
        ensures
            final(self).wf(),
            final(self).consumed() == old(self).consumed() + chunk@,
    {
        let ghost h0 = self.hist@;
        let ghost stream = h0 + chunk@;
        let n = chunk.len();
        self.bytes = self.bytes + (n as u64);
        if n > 0 {
            self.seen_any = true;
        }
        proof {
            assert(h0 + chunk@.take(0) =~= h0);
            counting::lemma_newline_count_le(h0);
            counting::lemma_word_count_le(h0, false);
        }
        let mut lines = self.lines;
        let mut words = self.words;
        let mut active = self.word_active;
        let mut i: usize = 0;
        while i < n
            invariant
                i <= n,
                lines == counting::newline_count(h0 + chunk@.take(i as int)),
                words == counting::word_count_from(h0 + chunk@.take(i as int), false),
                active == counting::word_active_after(h0 + chunk@.take(i as int), false),
                lines <= h0.len() + i,
                words <= h0.len() + i,
            decreases n - i,
        {
            let b = chunk[i];
            proof {
                assert(h0 + chunk@.take(i as int + 1) =~= (h0 + chunk@.take(i as int)).push(b));
                counting::lemma_newline_push(h0 + chunk@.take(i as int), b);
                counting::lemma_word_push(h0 + chunk@.take(i as int), b, false);
            }
            if b == 0x0A {
                lines = lines + 1;
            }
            if !counting::is_ascii_space_x(b) {
                if !active {
                    words = words + 1;
                    active = true;
                }
            } else {
                active = false;
            }
            i = i + 1;
        }
        proof {
            assert(chunk@.take(n as int) =~= chunk@);
        }
        self.lines = lines;
        self.words = words;
        self.word_active = active;

        // Decode the saved remainder followed by the new bytes; what the
        // scan cannot finish is the new remainder.
        let mut buf: Vec<u8> = Vec::new();
        let mut j: usize = 0;
        let rem_len = self.rem.len();
        while j < rem_len
            invariant
                j <= rem_len,
                buf@ == self.rem@.take(j as int),
            decreases rem_len - j,
        {
            buf.push(self.rem[j]);
            j = j + 1;
        }
        proof {
            assert(self.rem@.take(rem_len as int) =~= self.rem@);
        }
        buf.extend_from_slice(chunk);
        proof {
            assert(buf@ =~= self.rem@ + chunk@);
        }
        let (found, tail) = counting::scan_chunk(buf.as_slice());
        proof {
            counting::lemma_scan_append(h0, chunk@);
            counting::lemma_scan_le(stream);
        }
        self.chars = self.chars + found;
        self.rem = tail;
        self.hist = Ghost(stream);
    }

    /// Finalizes the pass once the stream is exhausted: characters still
    /// recoverable from the remainder are added, and a non-empty stream
    /// without any line feed is reported as one line.
    pub fn finish(&self) -> (r: Stats)
        requires
            self.wf(),
        ensures
            r.bytes_count == counting::byte_total(self.consumed()),
            r.words_count == counting::word_total(self.consumed()),
            r.lines_count == counting::line_total(self.consumed()),
            r.chars_count == counting::char_total(self.consumed()),
    {
        let tail_chars = counting::close_chunk(self.rem.as_slice());
        proof {
            counting::lemma_close_decompose(self.consumed());
            counting::lemma_close_le(self.consumed());
        }
        let chars = self.chars + tail_chars;
        let lines = if self.seen_any && self.lines == 0 {
            1
        } else {
            self.lines
        };
        Stats { bytes_count: self.bytes, words_count: self.words, lines_count: lines, chars_count: chars }
    }
}

/// Computing the four counters from a stream that has already been split
/// into chunks. The result is stated over the concatenation of the chunks
/// alone, so the counters can never depend on where the stream was split.
pub trait DataStats {
    /// Runs one full pass of the accumulator over the chunks, in order,
    /// and finalizes it.
    #[verifier::loop_isolation(false)]
    fn get_stats(chunks: &Vec<Vec<u8>>) -> (r: Stats)
        requires
            chunks.deep_view().flatten().len() <= u64::MAX,
        ensures
            r.bytes_count == counting::byte_total(chunks.deep_view().flatten()),
            r.words_count == counting::word_total(chunks.deep_view().flatten()),
            r.lines_count == counting::line_total(chunks.deep_view().flatten()),
            r.chars_count == counting::char_total(chunks.deep_view().flatten()),
    {
        let ghost dv = chunks.deep_view();
        let mut acc = Accumulator::new();
        let mut i: usize = 0;
        proof {
            assert(dv.take(0) =~= Seq::<Seq<u8>>::empty());
        }
        while i < chunks.len()
            invariant
                i <= chunks.len(),
                acc.wf(),
                acc.consumed() == dv.take(i as int).flatten(),
            decreases chunks.len() - i,
        {
            proof {
                assert(chunks@[i as int].deep_view() =~= chunks@[i as int]@);
                assert(dv.take(i as int + 1) =~= dv.take(i as int).push(dv[i as int]));
                dv.take(i as int).lemma_flatten_push(dv[i as int]);
                assert(dv =~= dv.take(i as int + 1) + dv.skip(i as int + 1));
                vstd::seq_lib::lemma_flatten_concat(dv.take(i as int + 1), dv.skip(i as int + 1));
            }
            acc.feed(chunks[i].as_slice());
            i = i + 1;
        }
        proof {
            assert(dv.take(chunks.len() as int) =~= dv);
        }
        acc.finish()
    }
}

/// Counters computed from a file source.
pub struct FileStats {
    pub stats: Stats,
}

/// Counters computed from the standard input stream.
pub struct StdInStats {
    pub stats: Stats,
}

impl DataStats for FileStats {

}

impl DataStats for StdInStats {

}

} // verus!
