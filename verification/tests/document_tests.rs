use blitz_notepad::document::{
    load_mode_for_len, temporary_save_name, utf8_char_width, visual_column,
    write_normalized_utf8_chunk, DocumentPath, LoadMode, LoadedSource, TextEdit,
    MMAP_THRESHOLD_BYTES,
};
use blitz_notepad::encoding::{
    accept_ansi_bytes, accept_ansi_text, decode_to_utf8, detect_encoding, encode_from_utf8,
    TextEncoding,
};
use blitz_notepad::line_index::{
    build_parallel_with_chunk_len, detect_line_ending, normalize_line_endings, LineEnding,
    LineIndex,
};
use blitz_notepad::piece_table::{PieceTable, SourceBytes};
use blitz_notepad::{BlitzError, Document};

fn file(name: &str) -> DocumentPath {
    DocumentPath {
        location: name.as_bytes().to_vec(),
        file_name: Some(name.to_owned()),
    }
}

fn read(bytes: &[u8]) -> LoadedSource {
    LoadedSource {
        source: SourceBytes::from_vec(bytes.to_vec()),
        mode: LoadMode::Heap,
        original_file_len: bytes.len() as u64,
    }
}

/// Saves a document and gives back the bytes of the file.
fn save_as(
    document: &mut Document,
    name: &str,
    encoding: TextEncoding,
    line_ending: LineEnding,
) -> Vec<u8> {
    let bytes = document.contents(encoding, line_ending).expect("contents");
    document.save_as(file(name), encoding, line_ending, bytes.len() as u64);
    bytes
}

#[test]
fn new_untitled_document_is_clean_until_edited() {
    let mut document = Document::new_untitled();

    assert!(!document.is_dirty());

    document.insert_text(0, "x").expect("insert");

    assert!(document.is_dirty());
}

#[test]
fn japanese_input_round_trips_as_utf8() {
    let mut document = Document::new_untitled();

    document
        .insert_text(0, "日本語のメモ")
        .expect("insert Japanese");
    let saved = save_as(
        &mut document,
        "japanese.txt",
        TextEncoding::Utf8,
        LineEnding::Lf,
    );

    let reopened = Document::open(file("japanese.txt"), read(&saved)).expect("open");
    assert_eq!(reopened.text_lossy(), "日本語のメモ");
    assert_eq!(reopened.encoding(), TextEncoding::Utf8);
}

#[test]
fn emoji_input_round_trips_as_utf8() {
    let mut document = Document::new_untitled();

    document.insert_text(0, "😐😀").expect("insert emoji");
    let saved = save_as(
        &mut document,
        "emoji.txt",
        TextEncoding::Utf8,
        LineEnding::Lf,
    );

    let reopened = Document::open(file("emoji.txt"), read(&saved)).expect("open");
    assert_eq!(reopened.text_lossy(), "😐😀");
    assert_eq!(reopened.encoding(), TextEncoding::Utf8);
}

#[test]
fn detects_utf16_and_ansi_samples() {
    let mut utf16 = vec![0xFF, 0xFE];
    for code_unit in "日本語".encode_utf16() {
        utf16.extend_from_slice(&code_unit.to_le_bytes());
    }
    assert_eq!(detect_encoding(&utf16), TextEncoding::Utf16Le);
    assert_eq!(
        decode_to_utf8(&utf16, TextEncoding::Utf16Le).expect("utf16"),
        "日本語"
    );

    let ansi = encode_from_utf8("日本語", TextEncoding::Ansi).expect("shift-jis");
    assert_eq!(detect_encoding(&ansi), TextEncoding::Ansi);
    assert_eq!(
        decode_to_utf8(&ansi, TextEncoding::Ansi).expect("ansi"),
        "日本語"
    );
}

#[test]
fn detects_all_required_line_endings() {
    assert_eq!(detect_line_ending(b"a\r\nb\r\n"), LineEnding::CrLf);
    assert_eq!(detect_line_ending(b"a\nb\n"), LineEnding::Lf);
    assert_eq!(detect_line_ending(b"a\rb\r"), LineEnding::Cr);
}

#[test]
fn large_file_uses_memory_map_without_crashing() {
    let len = MMAP_THRESHOLD_BYTES as usize + 1;
    let mut map = memmap2::MmapMut::map_anon(len).expect("map");
    let line = b"sample text\n";
    for i in 0..1024 {
        map[i * line.len()..(i + 1) * line.len()].copy_from_slice(line);
    }
    let loaded = LoadedSource {
        source: SourceBytes::from_mmap(map.make_read_only().expect("read only")),
        mode: load_mode_for_len(len as u64),
        original_file_len: len as u64,
    };

    let document = Document::open(file("large.txt"), loaded).expect("open large file");
    assert_eq!(document.load_mode(), LoadMode::MemoryMapped);
    assert!(document.original_file_len() > MMAP_THRESHOLD_BYTES);
    assert_eq!(document.visible_lines(0, 1)[0].text, "sample text");
}

#[test]
fn visible_lines_cap_very_long_rows_for_virtual_rendering() {
    let mut document = Document::new_untitled();
    document
        .insert_text(0, &"x".repeat(64 * 1024))
        .expect("insert long line");

    let line = document
        .visible_lines(0, 1)
        .into_iter()
        .next()
        .expect("visible line");

    assert!(line.text.len() <= 16 * 1024);
    assert!(line.byte_range.len() <= 16 * 1024);
}

#[test]
fn line_index_updates_when_edit_joins_lf_into_crlf() {
    let mut document = Document::new_untitled();
    document.insert_text(0, "a\nb").expect("insert");

    document.insert_text(1, "\r").expect("insert cr");

    assert_eq!(document.text_lossy(), "a\r\nb");
    assert_eq!(document.line_count(), 2);
    assert_eq!(document.visible_lines(0, 2)[0].text, "a");
    assert_eq!(document.visible_lines(0, 2)[1].text, "b");

    assert!(document.undo().expect("undo"));
    assert_eq!(document.text_lossy(), "a\nb");
    assert_eq!(document.line_count(), 2);
}

#[test]
fn multi_cursor_edits_apply_from_document_end() {
    let mut document = Document::new_untitled();
    document.insert_text(0, "aa bb cc").expect("insert");
    document
        .apply_edits_from_end(&[
            TextEdit {
                range: 0..2,
                replacement: "AA".to_owned(),
            },
            TextEdit {
                range: 6..8,
                replacement: "CC".to_owned(),
            },
        ])
        .expect("multi edit");

    assert_eq!(document.text_lossy(), "AA bb CC");
}

#[test]
fn save_as_normalizes_line_endings_and_utf8_bom() {
    let mut document = Document::new_untitled();
    document.insert_text(0, "a\nb\rc\r\n").expect("insert");
    let saved = save_as(
        &mut document,
        "saved.txt",
        TextEncoding::Utf8Bom,
        LineEnding::CrLf,
    );

    assert!(!document.is_dirty());
    assert_eq!(document.file_name(), "saved.txt");
    assert_eq!(saved, b"\xEF\xBB\xBFa\r\nb\r\nc\r\n");
}

#[test]
fn streaming_utf8_save_normalizes_across_piece_boundaries() {
    let mut document = Document::open(file("source.txt"), read(b"a\nb")).expect("open");

    document.insert_text(1, "\r").expect("insert cr");
    let saved = save_as(
        &mut document,
        "saved.txt",
        TextEncoding::Utf8,
        LineEnding::CrLf,
    );

    assert_eq!(saved, b"a\r\nb");
}

#[test]
fn streaming_utf8_save_normalizes_trailing_cr() {
    let mut document = Document::new_untitled();
    document.insert_text(0, "a\r").expect("insert");

    let saved = save_as(
        &mut document,
        "trailing-cr.txt",
        TextEncoding::Utf8,
        LineEnding::Lf,
    );

    assert_eq!(saved, b"a\n");
}

#[test]
fn undo_restores_previous_document_text() {
    let mut document = Document::new_untitled();
    document.insert_text(0, "alpha").expect("insert");
    document.insert_text(5, " beta").expect("insert");

    assert!(document.undo_available());
    assert!(document.undo().expect("undo"));
    assert_eq!(document.text_lossy(), "alpha");
    assert!(document.is_dirty());
}

#[test]
fn undo_back_to_saved_content_clears_dirty_flag() {
    let mut document = Document::new_untitled();
    document.insert_text(0, "alpha").expect("insert");
    save_as(
        &mut document,
        "undo-clean.txt",
        TextEncoding::Utf8,
        LineEnding::Lf,
    );

    document.insert_text(5, " beta").expect("insert");
    assert!(document.is_dirty());
    assert!(document.undo().expect("undo"));

    assert_eq!(document.text_lossy(), "alpha");
    assert!(!document.is_dirty());
}

#[test]
fn caret_position_counts_tabs_as_visual_columns() {
    let mut document = Document::new_untitled();
    document.insert_text(0, "a\tb").expect("insert");

    assert_eq!(document.caret_position(2).expect("caret").column, 9);
    assert_eq!(document.caret_position(3).expect("caret").column, 10);
}

#[test]
fn caret_position_tracks_multiline_locations() {
    let mut document = Document::new_untitled();
    document.insert_text(0, "one\ntwo\nthree").expect("insert");

    let caret = document.caret_position("one\ntw".len()).expect("caret");
    assert_eq!(caret.line, 2);
    assert_eq!(caret.column, 3);
}

#[test]
fn edit_beyond_partial_line_index_extends_index_first() {
    let bytes = b"a\nb\nc\nd".to_vec();
    let len = bytes.len();
    let source = SourceBytes::from_vec(bytes.clone());
    let mut document = Document::from_indexed_source(source, LineEnding::Lf, 2);

    document.insert_text(len, "\ne").expect("insert");

    assert_eq!(document.line_count(), 5);
    assert_eq!(document.visible_lines(4, 1)[0].text, "e");
}

#[test]
fn incremental_line_index_preserves_crlf_across_stream_chunk_boundary() {
    let chunk_len = 1024 * 1024;
    let mut bytes = vec![b'a'; chunk_len - 1];
    bytes.extend_from_slice(b"\r\nb");
    let len = bytes.len();
    let source = SourceBytes::from_vec(bytes.clone());
    let mut document = Document::from_indexed_source(source, LineEnding::CrLf, 0);

    assert!(document.extend_line_index_towards_offset(len, len));

    assert_eq!(document.line_start(1), Some(chunk_len + 1));
    assert_eq!(document.visible_lines(1, 1)[0].text, "b");
}

// ---------------------------------------------------------------------------

#[test]
fn builds_line_starts_for_mixed_newlines() {
    let index = LineIndex::build(b"a\r\nb\nc\rd");
    assert_eq!(index.starts(), &[0, 3, 5, 7]);
    assert_eq!(index.line_for_offset(4), 1);
}

#[test]
fn parallel_build_matches_sequential_with_chunk_boundary_crlf() {
    let bytes = b"aa\r\nbb\ncc\rdd\r\nee";

    assert_eq!(
        build_parallel_with_chunk_len(bytes, 3),
        LineIndex::build(bytes)
    );
}

#[test]
fn parallel_build_matches_sequential_with_absolute_chunk_offsets() {
    let bytes = b"abc\ndef\nghi\r\njkl\rmno\n";

    assert_eq!(
        build_parallel_with_chunk_len(bytes, 5),
        LineIndex::build(bytes)
    );
}

#[test]
fn parallel_build_matches_sequential_for_many_chunks() {
    let mut bytes = Vec::new();
    for index in 0..512 {
        bytes.extend_from_slice(format!("line {index}\r\n").as_bytes());
    }

    assert_eq!(
        build_parallel_with_chunk_len(&bytes, 17),
        LineIndex::build(&bytes)
    );
}

#[test]
fn prefix_index_does_not_scan_the_whole_buffer() {
    let index = LineIndex::build_prefix(b"a\nb\nc\nd", 4);

    assert!(!index.is_complete());
    assert_eq!(index.indexed_len(), 4);
    assert_eq!(index.starts(), &[0, 2, 4]);
    assert_eq!(index.line_range(2, 7), Some(4..4));
}

#[test]
fn prefix_index_extends_in_chunks() {
    let bytes = b"a\nb\nc\nd";
    let mut index = LineIndex::build_prefix(bytes, 2);

    index.extend(bytes, 5);

    assert!(index.is_complete());
    assert_eq!(index.starts(), &[0, 2, 4, 6]);
    assert_eq!(index.line_range(3, bytes.len()), Some(6..7));
}

#[test]
fn normalizes_line_endings() {
    assert_eq!(
        normalize_line_endings("a\rb\r\nc\n", LineEnding::Lf),
        "a\nb\nc\n"
    );
}

#[test]
fn detects_utf8_bom() {
    assert_eq!(detect_encoding(b"\xEF\xBB\xBFhello"), TextEncoding::Utf8Bom);
}

#[test]
fn detects_utf16_without_bom() {
    let bytes = [b'a', 0, b'b', 0, b'c', 0, b'\n', 0];
    assert_eq!(detect_encoding(&bytes), TextEncoding::Utf16Le);
}

#[test]
fn round_trips_shift_jis_japanese() {
    let encoded = encode_from_utf8("日本語", TextEncoding::Ansi).expect("encode");
    assert_eq!(detect_encoding(&encoded), TextEncoding::Ansi);
    assert_eq!(
        decode_to_utf8(&encoded, TextEncoding::Ansi).expect("decode"),
        "日本語"
    );
}

#[test]
fn inserts_and_deletes_without_mutating_original() {
    let source = SourceBytes::from_vec(b"hello world".to_vec());
    let mut table = PieceTable::from_source(source, 0, 11).expect("table");
    table.insert_str(5, " 日本語").expect("insert");
    table.delete_range(0..1).expect("delete");
    assert_eq!(table.to_text_lossy(), "ello 日本語 world");
}

#[test]
fn rejects_non_boundary_edit() {
    let mut table = PieceTable::from_text("日本");
    assert!(matches!(
        table.insert_str(1, "x"),
        Err(BlitzError::InvalidCharBoundary { offset: 1 })
    ));
}

// ---------------------------------------------------------------------------

#[test]
fn a_saved_file_opens_with_the_same_text() {
    for encoding in [
        TextEncoding::Utf8,
        TextEncoding::Utf8Bom,
        TextEncoding::Utf16Le,
        TextEncoding::Utf16Be,
    ] {
        let mut document = Document::new_untitled();
        document.insert_text(0, "日本\n😀 end").expect("insert");
        let saved = save_as(&mut document, "round.txt", encoding, LineEnding::Lf);
        let reopened = Document::open(file("round.txt"), read(&saved)).expect("open");
        assert_eq!(reopened.text_lossy(), "日本\n😀 end");
        assert_eq!(reopened.encoding(), encoding);
        assert_eq!(reopened.line_ending(), LineEnding::Lf);
    }
}

#[test]
fn utf16_big_endian_has_its_own_mark() {
    let bytes = encode_from_utf8("aé", TextEncoding::Utf16Be).expect("encode");
    assert_eq!(bytes, [0xFE, 0xFF, 0x00, 0x61, 0x00, 0xE9]);
    assert_eq!(detect_encoding(&bytes), TextEncoding::Utf16Be);
}

#[test]
fn shift_jis_bytes_are_those_of_the_code_page() {
    let encoded = encode_from_utf8("あA", TextEncoding::Ansi).expect("encode");
    assert_eq!(encoded, [0x82, 0xA0, 0x41]);
}

#[test]
fn what_shift_jis_cannot_hold_is_an_error() {
    assert!(matches!(
        encode_from_utf8("😀", TextEncoding::Ansi),
        Err(BlitzError::Encoding(_))
    ));
    assert!(accept_ansi_bytes(vec![0x41], false).is_ok());
    assert!(accept_ansi_bytes(vec![0x41], true).is_err());
    assert!(accept_ansi_text("a".to_owned(), false).is_ok());
    assert!(accept_ansi_text("a".to_owned(), true).is_err());
}

#[test]
fn half_a_utf16_file_is_an_error() {
    assert!(matches!(
        decode_to_utf8(&[0xFF, 0xFE, 0x41], TextEncoding::Utf16Le),
        Err(BlitzError::Encoding(_))
    ));
    assert!(matches!(
        decode_to_utf8(&[0xFF, 0xFE, 0x00, 0xD8], TextEncoding::Utf16Le),
        Err(BlitzError::Encoding(_))
    ));
}

#[test]
fn normalising_twice_changes_nothing() {
    for ending in [LineEnding::Lf, LineEnding::Cr, LineEnding::CrLf] {
        let once = normalize_line_endings("a\r\r\nb\n\rc", ending);
        assert_eq!(normalize_line_endings(&once, ending), once);
    }
    assert_eq!(
        normalize_line_endings("a\r\r\nb\n\rc", LineEnding::CrLf),
        "a\r\n\r\nb\r\n\r\nc"
    );
}

#[test]
fn edits_keep_the_lines_of_the_text() {
    let mut document = Document::new_untitled();
    document.insert_text(0, "one\ntwo\nthree").expect("insert");
    document.replace_range(2..9, "X\r\nY\n").expect("replace");
    let bytes = document.bytes();
    let whole = LineIndex::build(&bytes);
    assert_eq!(document.line_count(), whole.line_count());
    for line in 0..document.line_count() {
        assert_eq!(document.line_start(line), whole.line_start(line));
    }
}

#[test]
fn undo_restores_several_edits_at_once() {
    let mut document = Document::new_untitled();
    document.insert_text(0, "aa bb cc").expect("insert");
    document
        .apply_edits_from_end(&[
            TextEdit {
                range: 6..8,
                replacement: "日本".to_owned(),
            },
            TextEdit {
                range: 0..2,
                replacement: String::new(),
            },
        ])
        .expect("edits");
    assert_eq!(document.text_lossy(), " bb 日本");
    assert!(document.undo().expect("undo"));
    assert_eq!(document.text_lossy(), "aa bb cc");
}

#[test]
fn ranges_behind_the_text_are_refused() {
    let mut document = Document::new_untitled();
    document.insert_text(0, "abc").expect("insert");
    assert_eq!(
        document.delete_range(1..9),
        Err(BlitzError::InvalidRange {
            start: 1,
            end: 9,
            len: 3
        })
    );
    assert_eq!(
        document.text_range_lossy(2..1),
        Err(BlitzError::InvalidRange {
            start: 2,
            end: 1,
            len: 3
        })
    );
    assert_eq!(document.text_lossy(), "abc");
}

#[test]
fn a_document_without_a_file_has_nowhere_to_be_saved() {
    let document = Document::new_untitled();
    assert!(matches!(document.save(), Err(BlitzError::MissingSavePath)));
}

#[test]
fn bytes_that_are_no_text_are_shown_with_replacements() {
    let source = SourceBytes::from_vec(b"a\xFFb".to_vec());
    let document = Document::from_indexed_source(source, LineEnding::Lf, 3);
    assert_eq!(document.text_lossy(), "a\u{fffd}b");
}

#[test]
fn columns_follow_tabs_of_eight() {
    assert_eq!(visual_column(""), 1);
    assert_eq!(visual_column("abc"), 4);
    assert_eq!(visual_column("abc\t"), 9);
    assert_eq!(visual_column("12345678\t日"), 18);
}

#[test]
fn first_bytes_tell_the_width_of_a_character() {
    assert_eq!(utf8_char_width(b'a'), Ok(1));
    assert_eq!(utf8_char_width(0xE6), Ok(3));
    assert!(utf8_char_width(0x80).is_err());
}

#[test]
fn temporary_files_are_named_after_the_file() {
    assert_eq!(temporary_save_name(Some("a.txt")), ".a.txt.blitzpad-tmp");
    assert_eq!(temporary_save_name(None), ".untitled.blitzpad-tmp");
}

#[test]
fn an_index_built_elsewhere_is_taken_over() {
    let mut text = String::new();
    for line in 0..1_000_000 {
        text.push_str(&format!("line {line}\n"));
    }
    let mut loaded = read(text.as_bytes());
    loaded.mode = LoadMode::MemoryMapped;
    let mut document = Document::open(file("big.txt"), loaded).expect("open");
    assert!(document.line_count() < 1_000_001);
    let completed = document.line_index_job().expect("job").run();
    assert!(completed.belongs_to(&document));
    assert!(!completed.belongs_to(&Document::new_untitled()));
    document.refresh_line_index(completed);
    assert_eq!(document.line_count(), 1_000_001);
    assert!(document.line_index_job().is_none());
}

#[test]
fn building_an_index_with_workers_gives_the_same_index() {
    let short = b"a\r\nb\nc\rd";
    assert_eq!(LineIndex::build_parallel(short, 4), LineIndex::build(short));
    let mut long = vec![b'x'; 70 * 1024 * 1024];
    for at in (0..long.len()).step_by(1000) {
        long[at] = b'\n';
    }
    let built = LineIndex::build_parallel(&long, 3);
    assert_eq!(built, LineIndex::build(&long));
    assert_eq!(built.line_count(), long.len().div_ceil(1000) + 1);
}

#[test]
fn another_line_ending_counts_as_a_change() {
    let mut document = Document::open(file("a.txt"), read(b"a\nb")).expect("open");
    assert_eq!(document.line_ending(), LineEnding::Lf);
    document.set_line_ending(LineEnding::Lf);
    assert!(!document.is_dirty());
    document.set_line_ending(LineEnding::CrLf);
    assert!(document.is_dirty());
    assert!(!document.can_undo());
    assert_eq!(
        document
            .contents(document.encoding(), document.line_ending())
            .expect("contents"),
        b"a\r\nb"
    );
}

#[test]
fn only_a_mapped_source_counts_as_mapped() {
    assert!(!PieceTable::from_text("a").original_is_mapped());
    assert!(!SourceBytes::from_vec(vec![1]).is_mapped());
}

#[test]
fn errors_say_what_went_wrong() {
    assert_eq!(
        BlitzError::InvalidCharBoundary { offset: 7 }.message(),
        "offset 7 is not a UTF-8 character boundary"
    );
    assert_eq!(
        BlitzError::MissingSavePath.message(),
        "cannot save an untitled document without a target path"
    );
    assert_eq!(
        BlitzError::InvalidRange {
            start: 1,
            end: 20,
            len: 3
        }
        .message(),
        "invalid edit range 1..20 for document length 3"
    );
    assert_eq!(
        BlitzError::Window("no window".to_owned()).message(),
        "window error: no window"
    );
    assert_eq!(
        BlitzError::Settings("bad".to_owned()).message(),
        "settings error: bad"
    );
    assert_eq!(
        BlitzError::Encoding("odd".to_owned()).message(),
        "encoding error: odd"
    );
    assert_eq!(
        BlitzError::PlainIo("gone".to_owned()).message(),
        "I/O error: gone"
    );
    assert_eq!(
        blitz_notepad::io_path("a.txt".to_owned(), "gone".to_owned()),
        BlitzError::Io {
            path: "a.txt".to_owned(),
            source: "gone".to_owned()
        }
    );
}

#[test]
fn ansi_text_is_read_back_as_it_was_written() {
    let replaced = ['\u{A5}', '\u{203E}', '\u{2212}'];
    let mut all = String::new();
    for value in 0..=0x10_FFFF_u32 {
        let Some(character) = char::from_u32(value) else {
            continue;
        };
        let text = character.to_string();
        let Ok(bytes) = encode_from_utf8(&text, TextEncoding::Ansi) else {
            continue;
        };
        assert!(bytes[0] != 0xEF && bytes[0] != 0xFE && bytes[0] != 0xFF);
        assert!(bytes.len() <= text.len());
        let back = decode_to_utf8(&bytes, TextEncoding::Ansi).unwrap();
        assert_eq!(back == text, !replaced.contains(&character));
        if back == text {
            all.push(character);
        }
    }
    assert!(all.contains("日") && all.contains("ｱ") && !all.contains("é"));
    for kana in ('\u{3041}'..='\u{3093}')
        .chain('\u{30A1}'..='\u{30F6}')
        .chain('\u{FF61}'..='\u{FF9F}')
        .chain('\u{3000}'..='\u{3002}')
        .chain('\u{0}'..='\u{7F}')
    {
        assert!(all.contains(kana));
    }
    let word = encode_from_utf8("日本語", TextEncoding::Ansi).unwrap();
    assert_eq!(decode_to_utf8(&word, TextEncoding::Ansi).unwrap(), "日本語");

    let bytes = encode_from_utf8(&all, TextEncoding::Ansi).unwrap();
    assert_eq!(decode_to_utf8(&bytes, TextEncoding::Ansi).unwrap(), all);
    let minus = encode_from_utf8("\u{2212}", TextEncoding::Ansi).unwrap();
    assert_eq!(decode_to_utf8(&minus, TextEncoding::Ansi).unwrap(), "\u{FF0D}");
}

#[test]
fn a_saved_line_ending_is_recognised() {
    let mut document = Document::new_untitled();
    document.insert_text(0, "a\rb\nc\r\nd").expect("insert");
    for ending in [LineEnding::CrLf, LineEnding::Lf, LineEnding::Cr] {
        let bytes = document
            .contents(TextEncoding::Utf8, ending)
            .expect("contents");
        assert_eq!(detect_line_ending(&bytes), ending);
        let opened = Document::open(file("a.txt"), read(&bytes)).expect("open");
        assert_eq!(opened.line_ending(), ending);
        assert_eq!(opened.line_count(), 4);
    }
}

#[test]
fn every_offset_lies_within_its_line() {
    let document = Document::open(file("a.txt"), read(b"ab\r\n\nc\rd")).expect("open");
    for offset in 0..=document.len() {
        let line = document.line_for_offset(offset).expect("line");
        let range = document.line_range(line).expect("range");
        assert!(range.start <= offset && offset <= range.end);
        assert!(offset < range.end || line + 1 == document.line_count());
    }
}

fn edit(range: std::ops::Range<usize>, replacement: &str) -> TextEdit {
    TextEdit {
        range,
        replacement: replacement.to_owned(),
    }
}

#[test]
fn undo_brings_back_neighbours_in_their_order() {
    let mut document = Document::new_untitled();
    document.insert_text(0, "ab").expect("insert");
    document
        .apply_edits_from_end(&[edit(0..1, ""), edit(1..2, "")])
        .expect("edits");
    assert_eq!(document.text_lossy(), "");
    assert!(document.undo().expect("undo"));
    assert_eq!(document.text_lossy(), "ab");

    document
        .apply_edits_from_end(&[edit(1..1, "x"), edit(1..1, "yy"), edit(1..2, "")])
        .expect("edits");
    assert!(document.undo().expect("undo"));
    assert_eq!(document.text_lossy(), "ab");
}

#[test]
fn the_order_in_which_edits_are_given_does_not_matter() {
    let edits = [edit(0..2, "日本"), edit(3..5, ""), edit(6..6, "!\n"), edit(8..8, "?")];
    let orders = [[0, 1, 2, 3], [3, 2, 1, 0], [1, 3, 0, 2], [2, 0, 3, 1]];
    for order in orders {
        let mut document = Document::new_untitled();
        document.insert_text(0, "aa bb cc").expect("insert");
        let given = order.map(|at: usize| edits[at].clone());
        document.apply_edits_from_end(&given).expect("edits");
        assert_eq!(document.text_lossy(), "日本  !\ncc?");
        assert_eq!(document.line_count(), 2);
        assert!(document.undo().expect("undo"));
        assert_eq!(document.text_lossy(), "aa bb cc");
    }
}

#[test]
fn a_line_feed_put_behind_a_carriage_return_keeps_the_start_between_them() {
    let mut document = Document::new_untitled();
    document.insert_text(0, "a\rb").expect("insert");
    assert_eq!(document.line_count(), 2);
    document.insert_text(2, "\n").expect("insert");
    assert_eq!(document.line_count(), 3);
    assert_eq!(document.line_start(1), Some(2));
    assert_eq!(document.line_start(2), Some(3));
    assert!(document.undo().expect("undo"));
    assert_eq!(document.line_count(), 2);
    document.insert_text(1, "x\r\n").expect("insert");
    assert_eq!(document.text_lossy(), "ax\r\n\rb");
    assert_eq!(document.line_count(), 3);
}

#[test]
fn an_edit_ends_the_indexing_of_the_lines_behind_it() {
    let bytes = b"a\nb\nc\nd".to_vec();
    let source = SourceBytes::from_vec(bytes.clone());
    let mut document = Document::from_indexed_source(source, LineEnding::Lf, 2);
    document.insert_text(0, "x\n").expect("insert");
    assert_eq!(document.line_count(), 3);
    assert_eq!(document.line_start(1), Some(2));
    assert_eq!(document.line_start(2), Some(4));
}

#[test]
fn the_last_normalising_decides() {
    let text = "a\r\r\nb\n\rc";
    for first in [LineEnding::Lf, LineEnding::Cr, LineEnding::CrLf] {
        let once = normalize_line_endings(text, first);
        for last in [LineEnding::Lf, LineEnding::Cr, LineEnding::CrLf] {
            assert_eq!(
                normalize_line_endings(&once, last),
                normalize_line_endings(text, last)
            );
        }
    }
}

#[test]
fn an_index_belongs_to_every_document_of_its_text_that_awaits_one() {
    let text = "line\n".repeat(2_000_000);
    let opened = |text: &str| {
        let mut loaded = read(text.as_bytes());
        loaded.mode = LoadMode::MemoryMapped;
        Document::open(file("big.txt"), loaded).expect("open")
    };
    let document = opened(&text);
    let completed = document.line_index_job().expect("job").run();
    assert!(completed.belongs_to(&document));
    assert!(completed.belongs_to(&opened(&text)));
    assert!(!completed.belongs_to(&opened(&text.replace("line", "LINE"))));
    assert!(!completed.belongs_to(&opened(&"line\n".repeat(2_000_001))));
    let mut edited = opened(&text);
    edited.insert_text(0, "x").expect("insert");
    assert!(!completed.belongs_to(&edited));
}

#[test]
fn normalising_changes_only_line_breaks() {
    for ending in [LineEnding::Lf, LineEnding::Cr, LineEnding::CrLf] {
        let text = "\ra\r\r\n日b\n\rc\n\n";
        let normal = normalize_line_endings(text, ending);
        assert_eq!(normal.replace(['\r', '\n'], ""), "a日bc");
        assert!(!normal.replace(ending.sequence(), "").contains(['\r', '\n']));
        assert_eq!(
            LineIndex::build(normal.as_bytes()).line_count(),
            LineIndex::build(text.as_bytes()).line_count()
        );
    }
}

#[test]
fn a_chunk_may_be_empty() {
    let mut out = Vec::new();
    let mut pending_cr = false;
    write_normalized_utf8_chunk(&mut out, b"", LineEnding::CrLf, &mut pending_cr);
    assert!(out.is_empty() && !pending_cr);
    write_normalized_utf8_chunk(&mut out, b"a\r", LineEnding::CrLf, &mut pending_cr);
    assert!(out == b"a" && pending_cr);
    write_normalized_utf8_chunk(&mut out, b"", LineEnding::CrLf, &mut pending_cr);
    assert!(out == b"a\r\n" && !pending_cr);
}

#[test]
fn a_refused_edit_leaves_the_text() {
    let mut document = Document::new_untitled();
    document.insert_text(0, "日本").expect("insert");
    assert!(document.replace_range(1..3, "x").is_err());
    assert!(document
        .apply_edits_from_end(&[edit(0..3, ""), edit(3..5, "x")])
        .is_err());
    assert_eq!(document.text_lossy(), "日本");
    assert!(document.undo().expect("undo"));
    assert_eq!(document.text_lossy(), "");
}

#[test]
fn plain_text_is_recognised_by_its_first_bytes() {
    assert_eq!(detect_encoding("日本語のメモ".as_bytes()), TextEncoding::Utf8);
    assert_eq!(detect_encoding(b""), TextEncoding::Utf8);
    let whole = format!("a{}", "日".repeat(2000));
    assert_eq!(detect_encoding(whole.as_bytes()), TextEncoding::Utf8);
    let cut = "日".repeat(2000);
    assert_eq!(detect_encoding(cut.as_bytes()), TextEncoding::Ansi);
}
