use versualizer_core::lrc::LrcFile;

#[test]
fn test_parse_simple_lrc() {
    let input = "[00:12.34]Hello world";
    let result = LrcFile::parse(input).unwrap();
    assert_eq!(result.lines.len(), 1);
    assert_eq!(result.lines[0].start_time, 12340);
    assert_eq!(result.lines[0].text, "Hello world");
}

#[test]
fn test_parse_multiple_lines() {
    let input = "\n[00:05.00]First line\n[00:10.00]Second line\n[00:15.00]Third line\n";
    let result = LrcFile::parse(input).unwrap();
    assert_eq!(result.lines.len(), 3);
    assert_eq!(result.lines[0].text, "First line");
    assert_eq!(result.lines[1].text, "Second line");
    assert_eq!(result.lines[2].text, "Third line");
}

#[test]
fn test_parse_id_tags() {
    let input = "\n[ti:Song Title]\n[ar:Artist Name]\n[al:Album Name]\n[00:05.00]Lyrics here\n";
    let result = LrcFile::parse(input).unwrap();
    assert_eq!(result.metadata.title, Some("Song Title".to_string()));
    assert_eq!(result.metadata.artist, Some("Artist Name".to_string()));
    assert_eq!(result.metadata.album, Some("Album Name".to_string()));
}

#[test]
fn test_parse_offset() {
    let input = "\n[offset:500]\n[00:10.00]Test\n";
    let result = LrcFile::parse(input).unwrap();
    // 10.00s + 0.5s offset = 10.5s
    assert_eq!(result.lines[0].start_time, 10500);
}

#[test]
fn test_parse_negative_offset() {
    let input = "\n[offset:-500]\n[00:10.00]Test\n";
    let result = LrcFile::parse(input).unwrap();
    // 10.00s - 0.5s offset = 9.5s
    assert_eq!(result.lines[0].start_time, 9500);
}

#[test]
fn test_parse_cjk_lyrics() {
    let input = "[00:05.00]\u{4f60}\u{597d}\u{4e16}\u{754c}";
    let result = LrcFile::parse(input).unwrap();
    assert_eq!(result.lines[0].text, "\u{4f60}\u{597d}\u{4e16}\u{754c}");
}

#[test]
fn test_parse_enhanced_lrc() {
    let input = "[00:12.34] <00:12.34> Hello <00:13.00> world";
    let result = LrcFile::parse(input).unwrap();
    assert!(result.lines[0].words.is_some());
    let words = result.lines[0].words.as_ref().unwrap();
    assert_eq!(words.len(), 2);
    assert_eq!(words[0].text, "Hello");
    assert_eq!(words[1].text, "world");
}

#[test]
fn test_parse_multi_timestamp_line() {
    let input = "[00:05.00][00:15.00]Repeated lyric";
    let result = LrcFile::parse(input).unwrap();
    assert_eq!(result.lines.len(), 2);
    assert_eq!(result.lines[0].text, "Repeated lyric");
    assert_eq!(result.lines[1].text, "Repeated lyric");
    assert_eq!(result.lines[0].start_time, 5000);
    assert_eq!(result.lines[1].start_time, 15000);
}

#[test]
fn test_current_line() {
    let input = "\n[00:05.00]First\n[00:10.00]Second\n[00:15.00]Third\n";
    let lrc = LrcFile::parse(input).unwrap();

    assert!(lrc.current_line(0).is_none());
    assert_eq!(lrc.current_line(7_000).unwrap().text, "First");
    assert_eq!(lrc.current_line(12_000).unwrap().text, "Second");
    assert_eq!(lrc.current_line(20_000).unwrap().text, "Third");
}

#[test]
fn test_line_progress() {
    let line = versualizer_core::lrc::LrcLine {
        start_time: 10_000,
        text: "Hello world".to_string(),
        words: None,
    };

    let next_start = Some(15_000);

    assert_eq!(line.progress_permille(8_000, next_start), 0);
    assert_eq!(line.progress_permille(10_000, next_start), 0);
    assert_eq!(line.progress_permille(12_500, next_start), 500);
    assert_eq!(line.progress_permille(15_000, next_start), 1000);
    assert_eq!(line.progress_permille(20_000, next_start), 1000);
}

#[test]
fn test_alternative_timestamp_format() {
    // Some LRC files use mm:ss:xx format (colon instead of dot for hundredths)
    let input = "[00:12:34]Hello world";
    let result = LrcFile::parse(input).unwrap();
    assert_eq!(result.lines.len(), 1);
    // 12 seconds + 340ms
    assert_eq!(result.lines[0].start_time, 12340);
}

#[test]
fn test_empty_lines_ignored() {
    let input = "\n[00:05.00]First\n\n[00:10.00]Second\n\n";
    let result = LrcFile::parse(input).unwrap();
    assert_eq!(result.lines.len(), 2);
}

#[test]
fn test_visible_lines() {
    let input = "\n[00:05.00]Line 1\n[00:10.00]Line 2\n[00:15.00]Line 3\n[00:20.00]Line 4\n[00:25.00]Line 5\n";
    let lrc = LrcFile::parse(input).unwrap();

    let visible = lrc.visible_lines(12_000, 1, 1);
    assert_eq!(visible.len(), 3);
    assert_eq!(visible[0].text, "Line 1");
    assert_eq!(visible[1].text, "Line 2");
    assert_eq!(visible[2].text, "Line 3");
}

#[test]
fn test_out_of_order_lines_sorted() {
    let input = "[00:15.00]Later\n[00:05.00]Earlier\n[00:10.00]Middle";
    let result = LrcFile::parse(input).unwrap();
    assert_eq!(result.lines.len(), 3);
    assert_eq!(result.lines[0].text, "Earlier");
    assert_eq!(result.lines[1].text, "Middle");
    assert_eq!(result.lines[2].text, "Later");
}

#[test]
fn test_sort_is_stable_for_equal_times() {
    let input = "[00:05.00]One\n[00:05.00]Two\n[00:05.00]Three";
    let result = LrcFile::parse(input).unwrap();
    assert_eq!(result.lines.len(), 3);
    assert_eq!(result.lines[0].text, "One");
    assert_eq!(result.lines[1].text, "Two");
    assert_eq!(result.lines[2].text, "Three");
}

#[test]
fn test_malformed_lines_skipped() {
    let input = "not a lyric line\n[abc:def]junk\n[00:07.00]Real line\n[99junk";
    let result = LrcFile::parse(input).unwrap();
    assert_eq!(result.lines.len(), 1);
    assert_eq!(result.lines[0].text, "Real line");
}

#[test]
fn test_parse_timestamp_without_fraction() {
    let input = "[01:30]Plain minute-second stamp";
    let result = LrcFile::parse(input).unwrap();
    assert_eq!(result.lines[0].start_time, 90_000);
}

#[test]
fn test_offset_does_not_underflow() {
    let input = "[offset:-10000]\n[00:05.00]Early";
    let result = LrcFile::parse(input).unwrap();
    // 5 s minus a 10 s offset saturates at zero rather than wrapping.
    assert_eq!(result.lines[0].start_time, 0);
}

#[test]
fn test_offset_applies_to_words() {
    let input = "[offset:500]\n[00:10.00] <00:10.00> Hi <00:11.00> there";
    let result = LrcFile::parse(input).unwrap();
    let words = result.lines[0].words.as_ref().unwrap();
    assert_eq!(words[0].start_time, 10_500);
    assert_eq!(words[0].end_time, Some(11_500));
    assert_eq!(words[1].start_time, 11_500);
}

#[test]
fn test_current_line_index() {
    let input = "[00:05.00]A\n[00:10.00]B\n[00:15.00]C";
    let lrc = LrcFile::parse(input).unwrap();
    assert_eq!(lrc.current_line_index(7_000), Some(0));
    assert_eq!(lrc.current_line_index(12_000), Some(1));
    assert_eq!(lrc.current_line_index(20_000), Some(2));
    assert_eq!(lrc.current_line_index(0), None);
}

#[test]
fn test_word_fill_boundaries() {
    let input = "[00:10.00] <00:10.00> Hi <00:11.00> yo";
    let lrc = LrcFile::parse(input).unwrap();
    let line = &lrc.lines[0];
    // Before the first word starts nothing is filled.
    assert!(!line.word_fill(9_000, 0));
    // After the first word's end its characters are filled.
    assert!(line.word_fill(11_000, 0));
    assert!(line.word_fill(11_000, 1));
    // The second word has no end time and counts as filled once reached.
    assert!(line.word_fill(11_000, 3));
}

#[test]
fn test_offset_not_reapplied_on_reparse() {
    // Parsing applies the offset once; serializing and re-parsing must
    // not shift the times again.
    let parsed = LrcFile::parse("[offset:500]\n[00:10.00]Test").unwrap();
    assert_eq!(parsed.lines[0].start_time, 10_500);
    assert_eq!(parsed.metadata.offset, 500);
    let serialized = versualizer_core::cache::serialize_lrc(&parsed);
    let reparsed = LrcFile::parse(&serialized).unwrap();
    assert_eq!(reparsed.lines.len(), 1);
    assert_eq!(reparsed.lines[0].start_time, 10_500);
    assert_eq!(reparsed.lines[0].text, "Test");
}

#[test]
fn test_roundtrip_truncates_to_hundredths() {
    // The written format carries hundredths, so a millisecond-precise
    // time comes back rounded down to the hundredth; nothing else moves.
    let parsed = LrcFile::parse("[00:05.123]Finer than the format").unwrap();
    assert_eq!(parsed.lines[0].start_time, 5_123);
    let serialized = versualizer_core::cache::serialize_lrc(&parsed);
    let reparsed = LrcFile::parse(&serialized).unwrap();
    assert_eq!(reparsed.lines[0].start_time, 5_120);
    assert_eq!(reparsed.lines[0].text, "Finer than the format");
}

#[test]
fn test_roundtrip_simple_file() {
    let input = "[00:05.00]First line\n[00:10.50]Second line\n[01:15.25]Third line\n";
    let parsed = versualizer_core::lrc::LrcFile::parse(input).unwrap();
    let serialized = versualizer_core::cache::serialize_lrc(&parsed);
    let reparsed = versualizer_core::lrc::LrcFile::parse(&serialized).unwrap();
    assert_eq!(reparsed.lines.len(), parsed.lines.len());
    for (a, b) in parsed.lines.iter().zip(reparsed.lines.iter()) {
        assert_eq!(a.start_time, b.start_time);
        assert_eq!(a.text, b.text);
    }
}
