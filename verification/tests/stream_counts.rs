use m_wc::dao::{DataSource, StatErrors, Stats};
use m_wc::file_stats::{Accumulator, DataStats, FileStats, StdInStats};

fn counts_of(input: &[u8]) -> (u64, u64, u64, u64) {
    let mut acc = Accumulator::new();
    acc.feed(input);
    let s = acc.finish();
    (s.bytes_count, s.words_count, s.lines_count, s.chars_count)
}

#[test]
fn hello_world_line() {
    assert_eq!(counts_of(b"hello world\n"), (12, 2, 1, 12));
}

#[test]
fn empty_stream_all_zero() {
    assert_eq!(counts_of(b""), (0, 0, 0, 0));
    let acc = Accumulator::new();
    let s = acc.finish();
    assert_eq!(s.bytes_count, 0);
    assert_eq!(s.words_count, 0);
    assert_eq!(s.lines_count, 0);
    assert_eq!(s.chars_count, 0);
}

#[test]
fn no_trailing_newline_counts_one_line() {
    assert_eq!(counts_of(b"abc"), (3, 1, 1, 3));
}

#[test]
fn three_byte_char_then_newline() {
    // The euro sign is encoded as the three bytes 0xE2 0x82 0xAC.
    assert_eq!(counts_of(&[0xE2, 0x82, 0xAC, 0x0A]), (4, 1, 1, 2));
}

#[test]
fn whitespace_only_three_newlines() {
    assert_eq!(counts_of(b"   \n\n  \n"), (8, 0, 3, 8));
}

#[test]
fn trailing_newline_adds_no_extra_line() {
    assert_eq!(counts_of(b"a\n"), (2, 1, 1, 2));
    assert_eq!(counts_of(b"a\nb\n"), (4, 2, 2, 4));
}

#[test]
fn split_multibyte_char_counts_once() {
    // The euro sign split (1 byte, 2 bytes) across two reads is one char.
    let mut acc = Accumulator::new();
    acc.feed(&[0xE2]);
    acc.feed(&[0x82, 0xAC]);
    let s = acc.finish();
    assert_eq!(s.bytes_count, 3);
    assert_eq!(s.chars_count, 1);

    // ... and split (2 bytes, 1 byte) too.
    let mut acc = Accumulator::new();
    acc.feed(&[0xE2, 0x82]);
    acc.feed(&[0xAC]);
    let s = acc.finish();
    assert_eq!(s.chars_count, 1);
}

#[test]
fn word_split_across_chunks_counts_once() {
    let mut acc = Accumulator::new();
    acc.feed(b"hel");
    acc.feed(b"lo world");
    let s = acc.finish();
    assert_eq!(s.words_count, 2);
    assert_eq!(s.bytes_count, 11);
}

#[test]
fn chunking_never_changes_the_counters() {
    let input: &[u8] = "on\u{00e9} two\tthr\u{20ac}e\nfour\r\n \u{1F600} five".as_bytes();
    let mut whole = Accumulator::new();
    whole.feed(input);
    let w = whole.finish();

    let mut byte_by_byte = Accumulator::new();
    for b in input {
        byte_by_byte.feed(&[*b]);
    }
    let o = byte_by_byte.finish();

    assert_eq!(w.bytes_count, o.bytes_count);
    assert_eq!(w.words_count, o.words_count);
    assert_eq!(w.lines_count, o.lines_count);
    assert_eq!(w.chars_count, o.chars_count);
    assert_eq!(w.bytes_count, input.len() as u64);
    assert_eq!(w.chars_count, std::str::from_utf8(input).unwrap().chars().count() as u64);
}

#[test]
fn two_identical_streams_give_identical_counters() {
    let input = b"the quick\nbrown fox\n";
    let first = counts_of(input);
    let second = counts_of(input);
    assert_eq!(first, second);
}

#[test]
fn invalid_bytes_lose_no_byte_word_or_line() {
    // An invalid byte in the middle: bytes, words and lines unaffected;
    // every decodable character around it is still counted.
    let input: &[u8] = &[b'a', 0xFF, b'b', b'\n'];
    assert_eq!(counts_of(input), (4, 1, 1, 3));
}

#[test]
fn truncated_sequence_at_end_of_stream_counts_nothing() {
    // The first two bytes of a three-byte sequence, never completed.
    let input: &[u8] = &[b'x', 0xE2, 0x82];
    assert_eq!(counts_of(input), (3, 1, 1, 1));
}

#[test]
fn overlong_and_surrogate_encodings_are_invalid() {
    // 0xC0 0xAF is an overlong slash: neither byte starts a valid sequence.
    assert_eq!(counts_of(&[0xC0, 0xAF]).3, 0);
    // 0xED 0xA0 0x80 encodes a surrogate: invalid in UTF-8.
    assert_eq!(counts_of(&[0xED, 0xA0, 0x80]).3, 0);
    // A valid four-byte character still counts as one.
    assert_eq!(counts_of(&[0xF0, 0x9F, 0x98, 0x80]).3, 1);
}

#[test]
fn get_stats_over_chunks_matches_whole_read() {
    let chunks: Vec<Vec<u8>> = vec![b"hello ".to_vec(), b"world".to_vec(), b"\n".to_vec()];
    let s = FileStats::get_stats(&chunks);
    assert_eq!(s.bytes_count, 12);
    assert_eq!(s.words_count, 2);
    assert_eq!(s.lines_count, 1);
    assert_eq!(s.chars_count, 12);

    let s = StdInStats::get_stats(&vec![b"hello world\n".to_vec()]);
    assert_eq!(s.bytes_count, 12);
    assert_eq!(s.words_count, 2);
}

#[test]
fn stats_new_is_all_zero() {
    let s = Stats::new();
    assert_eq!(s.bytes_count, 0);
    assert_eq!(s.words_count, 0);
    assert_eq!(s.lines_count, 0);
    assert_eq!(s.chars_count, 0);
}

#[test]
fn stat_errors_variants() {
    let e = StatErrors::new();
    assert!(e.bytes_count.is_none());
    assert!(e.words_count.is_none());
    assert!(e.lines_count.is_none());
    assert!(e.chars_count.is_none());

    let e = StatErrors::new_all_fields_errors();
    assert_eq!(e.bytes_count.as_deref(), Some("An error occured during computing bytes count!"));
    assert_eq!(e.words_count.as_deref(), Some("An error occured during computing words count!"));
    assert_eq!(e.lines_count.as_deref(), Some("An error occured during computing lines count!"));
    assert_eq!(e.chars_count.as_deref(), Some("An error occured during computing chars count!"));
}

#[test]
fn data_source_hands_out_its_stats() {
    let mut acc = Accumulator::new();
    acc.feed(b"one two\n");
    let file = DataSource::File(FileStats { stats: acc.finish() });
    assert_eq!(file.stats().words_count, 2);

    let stdin = DataSource::StdIn(StdInStats { stats: Stats::new() });
    assert_eq!(stdin.stats().bytes_count, 0);
}

#[test]
fn vertical_tab_separates_words() {
    // 0x0B is in the whitespace set that delimits words.
    assert_eq!(counts_of(&[b'a', 0x0B, b'b']).1, 2);
}
