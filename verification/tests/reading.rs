use fcb::capture::SourceCapture;
use fcb::identity::{ArenaOwnerId, ByteRange, FileId, QueryGeneration, SourceRevision};
use fcb::search::lens::brackets::{find_matching_bracket, BracketKind, BracketMatchResult, BracketPairMatch};
use fcb::search::lens::find::{find_matches, FindInFileSession, FindOptions};
use fcb::search::lens::guides::{
    compute_indent_guides, compute_whitespace_markers, IndentGuide, WhitespaceKind,
};
use fcb::search::lens::{
    GutterConfig, LensSelection, LensViewport, LineNavigationResult, SourceReadingLens, WrapMode,
};
use fcb::search::reader::{LineNumber, ReaderError};
use fcb::search::selection::{
    hit_test_line, CaretAffinity, ClipboardError, ClipboardLimits, ExportOutcome, NativeClipboard,
    SourceAnchor, SourceSelection, StagedClipboardData, StreamedExportOptions, StreamedFileExport,
};

fn owner() -> ArenaOwnerId {
    ArenaOwnerId::new(31).unwrap()
}

fn generation(n: u64) -> QueryGeneration {
    QueryGeneration::new(owner(), n).unwrap()
}

fn capture(bytes: &[u8]) -> SourceCapture {
    SourceCapture::from_bytes(
        owner(),
        FileId::new(owner(), 1).unwrap(),
        SourceRevision::new(owner(), 2).unwrap(),
        "src/a.rs".to_string(),
        bytes.to_vec(),
    )
    .unwrap()
}

fn selection(source: &SourceCapture, from: u64, to: u64) -> SourceSelection {
    SourceSelection::new(
        source.file,
        source.revision,
        generation(3),
        SourceAnchor::new(from, 1, 0),
        SourceAnchor::new(to, 1, 4),
    )
    .unwrap()
}

#[test]
fn brackets_match_across_nesting() {
    let bytes = b"f(a[1], {b})".to_vec();
    let pair = |kind, open_offset, close_offset| {
        BracketMatchResult::Matched(BracketPairMatch { kind, open_offset, close_offset })
    };
    assert_eq!(find_matching_bracket(&bytes, 1), pair(BracketKind::Paren, 1, 11));
    assert_eq!(find_matching_bracket(&bytes, 3), pair(BracketKind::Bracket, 3, 5));
    assert_eq!(find_matching_bracket(&bytes, 10), pair(BracketKind::Brace, 8, 10));
    assert_eq!(
        find_matching_bracket(&b"(((".to_vec(), 0),
        BracketMatchResult::Unmatched { offset: 0, kind: BracketKind::Paren, is_open: true }
    );
    assert_eq!(find_matching_bracket(&b"abc".to_vec(), 1), BracketMatchResult::NoBracket);
    assert_eq!(BracketKind::from_open(b'{'), Some(BracketKind::Brace));
    assert_eq!(BracketKind::from_close(b'{'), None);
    assert_eq!(BracketKind::Angle.close_char(), b'>');
}

#[test]
fn crossing_brackets_do_not_match() {
    let crossed = b"([)]".to_vec();
    let unmatched = |offset, kind, is_open| BracketMatchResult::Unmatched { offset, kind, is_open };
    assert_eq!(find_matching_bracket(&crossed, 0), unmatched(0, BracketKind::Paren, true));
    assert_eq!(find_matching_bracket(&crossed, 1), unmatched(1, BracketKind::Bracket, true));
    assert_eq!(find_matching_bracket(&crossed, 2), unmatched(2, BracketKind::Paren, false));
    assert_eq!(find_matching_bracket(&crossed, 3), unmatched(3, BracketKind::Bracket, false));
    let open = b"{a(b}".to_vec();
    assert_eq!(find_matching_bracket(&open, 0), unmatched(0, BracketKind::Brace, true));
    assert_eq!(find_matching_bracket(&open, 4), unmatched(4, BracketKind::Brace, false));
    // Each end of a pair leads to the other.
    let nested = b"{[<()>][]}()".to_vec();
    for at in 0..nested.len() {
        let BracketMatchResult::Matched(pair) = find_matching_bracket(&nested, at) else {
            panic!("unmatched at {at}");
        };
        assert_eq!(
            find_matching_bracket(&nested, pair.open_offset),
            find_matching_bracket(&nested, pair.close_offset)
        );
        assert!(pair.open_offset == at || pair.close_offset == at);
    }
}

#[test]
fn finding_counts_lines_and_folds_case() {
    let bytes = b"Alpha beta\nalphabet ALPHA\n".to_vec();
    let exact = FindOptions { case_sensitive: true, whole_word: false };
    let found = find_matches(&bytes, b"alpha", exact);
    assert_eq!(found.len(), 1);
    assert_eq!(found[0].line_number, 2);
    assert_eq!(found[0].byte_range, ByteRange { start: 11, end: 16 });
    let source = capture(&bytes);
    let mut session = FindInFileSession::search(
        &source,
        "ALPHA",
        FindOptions { case_sensitive: false, whole_word: true },
    );
    assert_eq!(session.matches().len(), 2);
    assert_eq!(session.status().current_match_one_based, Some(1));
    let first = *session.current_match().unwrap();
    let second = *session.next_match().unwrap();
    assert_ne!(first, second);
    assert_eq!(session.prev_match(), Some(&first));
    assert_eq!(session.prev_match(), Some(&second));
}

#[test]
fn guides_follow_the_tab_width() {
    let markers = compute_whitespace_markers("\ta b\r\n", 4);
    let kinds: Vec<WhitespaceKind> = markers.iter().map(|m| m.kind).collect();
    assert_eq!(kinds[0], WhitespaceKind::Tab);
    assert_eq!(markers[0].column, 0);
    assert_eq!(kinds[1], WhitespaceKind::Space);
    assert_eq!(markers[1].column, 5);
    assert_eq!(kinds.last(), Some(&WhitespaceKind::CrLf));
    assert_eq!(WhitespaceKind::Tab.symbol(), "\u{2192}");
    assert_eq!(
        compute_indent_guides("        x", 4),
        vec![IndentGuide { column: 0, level: 0 }, IndentGuide { column: 4, level: 1 }]
    );
    assert!(compute_indent_guides("x", 4).is_empty());
}

#[test]
fn hits_on_a_line_find_the_nearest_boundary() {
    let hit = hit_test_line("a\tb", 0, 4);
    assert_eq!((hit.byte_offset, hit.char_index, hit.visual_column), (0, 0, 0));
    let past = hit_test_line("a\tb", 99, 4);
    assert_eq!(past.byte_offset, 3);
    assert_eq!(past.affinity, CaretAffinity::Trailing);
    let wide = hit_test_line("\u{e9}z", 1, 4);
    assert_eq!(wide.byte_offset, 2);
}

#[test]
fn a_lens_jumps_only_where_lines_are_known() {
    let viewport = LensViewport::new(800, 600, 20, 10).unwrap();
    assert_eq!(viewport.visible_lines_count(), 30);
    assert_eq!(viewport.visible_columns_count(), 80);
    assert_eq!(LensViewport::new(800, 600, 0, 10).err(), Some(ReaderError::InvalidLimits));
    let mut lens = SourceReadingLens::new(viewport);
    let line = |value| LineNumber { value };
    assert_eq!(
        lens.navigate_to_line(line(12), 40, Some(100)),
        LineNavigationResult::Resolved { line: line(12), target_scroll_y: 12 }
    );
    assert_eq!(lens.scroll_y_line(), 12);
    assert_eq!(
        lens.navigate_to_line(line(60), 40, Some(100)),
        LineNavigationResult::PendingFarJump { target_line: line(60), indexed_through_line: 40 }
    );
    assert_eq!(
        lens.navigate_to_line(line(101), 40, Some(100)),
        LineNavigationResult::OutOfBounds { target_line: line(101), total_lines: 100 }
    );
    assert_eq!(lens.scroll_y_line(), 12);
    assert_eq!(GutterConfig::digit_count(0), 1);
    assert_eq!(GutterConfig::digit_count(1000), 4);
    let gutter = GutterConfig { show_line_numbers: true, padding_chars: 1 };
    assert_eq!(gutter.gutter_width_chars(1000), 6);
    assert_eq!(gutter.gutter_width_px(1000, 10), 60);
}

#[test]
fn rows_are_wrapped_and_numbered() {
    let source = capture(b"abcdef\nxy\n");
    let mut lens = SourceReadingLens::new(LensViewport::new(800, 600, 20, 10).unwrap());
    lens.set_scroll_y_line(1);
    lens.set_wrap_mode(WrapMode::ColumnLimit(4));
    let rows = lens.render_visible_rows(&source, &vec![0, 7], 2, 1_000_000).unwrap();
    let texts: Vec<&str> = rows.iter().map(|row| row.text.trim_end()).collect();
    assert_eq!(texts, vec!["abcd", "ef", "xy"]);
    assert!(rows[1].is_wrapped_continuation);
    assert_eq!(rows[2].line_number, 2);
}

#[test]
fn wrapped_rows_are_full_and_only_the_last_line_is_cut() {
    let source = capture(b"abcdefgh\r\n\nxyzuvw\n");
    let mut lens = SourceReadingLens::new(LensViewport::new(30, 50, 10, 10).unwrap());
    lens.set_scroll_y_line(1);
    for mode in [WrapMode::ColumnLimit(3), WrapMode::ViewportWidth] {
        lens.set_wrap_mode(mode);
        let rows = lens.render_visible_rows(&source, &vec![0, 10, 11], 3, 1_000_000).unwrap();
        let shown: Vec<(u64, &str, bool)> = rows
            .iter()
            .map(|row| (row.line_number, row.text.as_str(), row.is_wrapped_continuation))
            .collect();
        assert_eq!(
            shown,
            vec![
                (1, "abc", false),
                (1, "def", true),
                (1, "gh", true),
                (2, "", false),
                (3, "xyz", false),
            ]
        );
    }
    let partial = LensViewport { width_px: 0, height_px: 90, line_height_px: 20, char_width_px: 0 };
    assert_eq!(partial.visible_lines_count(), 4);
    let partial = LensViewport { width_px: 35, height_px: 0, line_height_px: 0, char_width_px: 10 };
    assert_eq!(partial.visible_columns_count(), 3);
}

#[test]
fn lens_selections_copy_exact_bytes() {
    let source = capture(b"hello \xff world");
    let chosen = LensSelection {
        file: source.file,
        revision: source.revision,
        generation: generation(3),
        byte_range: ByteRange { start: 6, end: 13 },
        start_line: 1,
        start_col: 6,
        end_line: 1,
        end_col: 13,
    };
    assert_eq!(chosen.copy_exact_bytes(&source, 100).unwrap(), b"\xff world");
    assert_eq!(chosen.copy_with_provenance(&source, 100).unwrap().logical_path, "src/a.rs");
    assert_eq!(chosen.copy_exact_bytes(&source, 3).err(), Some(ReaderError::ResourceDenied));
    assert_eq!(chosen.validate(&source, generation(4)), Err(ReaderError::StaleQuery));
}

#[test]
fn staging_keeps_bytes_and_marks_replacements() {
    let source = capture(b"one \xff two");
    let staged = StagedClipboardData::stage(
        &selection(&source, 0, 9),
        &source,
        generation(3),
        ClipboardLimits { max_clipboard_bytes: 64 },
        || false,
    )
    .unwrap();
    assert_eq!(staged.exact_bytes, b"one \xff two".to_vec());
    assert_eq!(staged.plain_text, "one \u{fffd} two");
    assert!(staged.has_replacements);
    let refused = |limit, active, stop| {
        StagedClipboardData::stage(
            &selection(&source, 0, 9),
            &source,
            generation(active),
            ClipboardLimits { max_clipboard_bytes: limit },
            || stop,
        )
        .err()
    };
    assert_eq!(
        refused(4, 3, false),
        Some(ClipboardError::BudgetExceeded { requested_bytes: 9, max_budget_bytes: 4 })
    );
    assert_eq!(refused(64, 4, false), Some(ClipboardError::StaleGeneration));
    assert_eq!(refused(64, 3, true), Some(ClipboardError::Canceled));
    assert_eq!(
        SourceSelection::new(
            source.file,
            source.revision,
            generation(3),
            SourceAnchor::new(5, 1, 5),
            SourceAnchor::new(4, 1, 4),
        )
        .err(),
        Some(ReaderError::InvalidRange)
    );
}

#[test]
fn a_changed_clipboard_is_not_overwritten() {
    let source = capture(b"words");
    let stage = || {
        StagedClipboardData::stage(
            &selection(&source, 0, 5),
            &source,
            generation(3),
            ClipboardLimits { max_clipboard_bytes: 64 },
            || false,
        )
        .unwrap()
    };
    let mut clipboard = NativeClipboard::new();
    let seen = clipboard.generation_seq();
    clipboard.publish(stage(), seen).unwrap();
    assert_eq!(clipboard.plain_text(), Some("words"));
    assert_eq!(clipboard.raw_bytes(), Some(&b"words"[..]));
    clipboard.simulate_external_change("theirs");
    assert_eq!(
        clipboard.publish(stage(), seen + 1),
        Err(ClipboardError::ConcurrentExternalChange)
    );
    assert_eq!(clipboard.plain_text(), Some("theirs"));
    clipboard.inject_publication_failure(true);
    let now = clipboard.generation_seq();
    assert_eq!(clipboard.publish(stage(), now), Err(ClipboardError::PublicationFailed));
    assert_eq!(clipboard.plain_text(), Some("theirs"));
}

#[test]
fn exports_are_written_in_chunks() {
    let bytes: Vec<u8> = (0..2500).map(|n| n as u8).collect();
    let source = capture(&bytes);
    let mut pieces: Vec<Vec<u8>> = Vec::new();
    let done = StreamedFileExport::stream_to_writer(
        &selection(&source, 1, 2400),
        &source,
        generation(3),
        // A chunk is never shorter than a kibibyte, but for the last one.
        StreamedExportOptions { chunk_size: 3 },
        |piece: &[u8]| {
            pieces.push(piece.to_vec());
            true
        },
        || true,
        || false,
    );
    assert_eq!(done, Ok(ExportOutcome::Completed { total_bytes: 2399 }));
    let lengths: Vec<usize> = pieces.iter().map(Vec::len).collect();
    assert_eq!(lengths, vec![1024, 1024, 351]);
    assert_eq!(pieces.concat(), bytes[1..2400].to_vec());
    let refused = StreamedFileExport::stream_to_writer(
        &selection(&source, 1, 9),
        &source,
        generation(3),
        StreamedExportOptions { chunk_size: 3 },
        |_: &[u8]| false,
        || true,
        || false,
    );
    assert_eq!(refused, Err(ClipboardError::PublicationFailed));
}
