use psd2ugui::engine::{
    decode_engine_string_bytes, decode_utf16_engine_string, is_engine_whitespace, looks_like_utf16_be,
    looks_like_utf16_le, map_stroke_position, normalize_run_lengths, normalize_text_content,
    engine_run_spans, require_type_tool_text, run_font_index, trim_trailing_nuls, type_tool_content, EngineParser,
};

#[test]
fn engine_whitespace_includes_nul() {
    for b in [b' ', b'\t', b'\n', b'\r', 0x0C, 0] {
        assert!(is_engine_whitespace(b));
    }
    assert!(!is_engine_whitespace(b'a'));
    assert!(!is_engine_whitespace(0x0B));
}

#[test]
fn trailing_nuls_are_trimmed() {
    assert_eq!(trim_trailing_nuls(&[1, 0, 2, 0, 0]), vec![1, 0, 2]);
    assert_eq!(trim_trailing_nuls(&[0, 0]), Vec::<u8>::new());
    assert_eq!(trim_trailing_nuls(&[]), Vec::<u8>::new());
}

#[test]
fn utf16_detection_needs_mostly_ascii_pairs() {
    assert!(looks_like_utf16_be(&[0, b'H', 0, b'i']));
    assert!(!looks_like_utf16_le(&[0, b'H', 0, b'i']));
    assert!(looks_like_utf16_le(&[b'H', 0, b'i', 0]));
    assert!(!looks_like_utf16_be(&[0, b'H']));
    assert!(!looks_like_utf16_be(&[0, b'H', 0, b'i', 0]));
    assert!(looks_like_utf16_be(&[0, b'H', 0x4E, 0x2D]));
    assert!(!looks_like_utf16_be(&[0, 0x01, 0x4E, 0x2D]));
}

#[test]
fn run_lengths_are_fitted_to_the_text() {
    assert_eq!(normalize_run_lengths(vec![3, 0, 4, 10], 5), vec![3, 2]);
    assert_eq!(normalize_run_lengths(vec![3, 0, 4], 0), vec![3, 4]);
    assert_eq!(normalize_run_lengths(vec![2, 2], 10), vec![2, 2]);
    assert_eq!(normalize_run_lengths(vec![], 4), Vec::<usize>::new());
}

#[test]
fn fitted_runs_never_exceed_the_text() {
    let out = normalize_run_lengths(vec![5, 5, 5, 5], 12);
    assert_eq!(out.iter().sum::<usize>(), 12);
    assert_eq!(out, vec![5, 5, 2]);
}

#[test]
fn text_content_line_breaks_become_line_feeds() {
    assert_eq!(normalize_text_content("a\rb\u{3}c"), "a\nb\nc");
    assert_eq!(normalize_text_content("plain"), "plain");
}

#[test]
fn stroke_positions_are_named() {
    assert_eq!(map_stroke_position("OutF".to_string()), "outside");
    assert_eq!(map_stroke_position("inside".to_string()), "inside");
    assert_eq!(map_stroke_position("CtrF".to_string()), "center");
}

#[test]
fn engine_strings_decode_utf16_with_or_without_mark() {
    assert_eq!(decode_utf16_engine_string(&[0xFE, 0xFF, 0, b'H', 0, b'i']), Some("Hi".to_string()));
    assert_eq!(decode_utf16_engine_string(&[0xFF, 0xFE, b'H', 0, b'i', 0, 0, 0]), Some("Hi".to_string()));
    assert_eq!(decode_utf16_engine_string(&[0, b'O', 0, b'K']), Some("OK".to_string()));
    assert_eq!(decode_utf16_engine_string(b"plain"), None);
    assert_eq!(decode_utf16_engine_string(&[0xFE, 0xFF, 0]), None);
    assert_eq!(decode_utf16_engine_string(&[0xFE, 0xFF, 0xD8, 0x00]), None);
    assert_eq!(decode_engine_string_bytes(b"plain"), "plain");
    assert_eq!(decode_engine_string_bytes(&[0xFE, 0xFF, 0xD8, 0x00]), "\u{FFFD}\u{FFFD}\u{FFFD}\0");
    assert_eq!(decode_engine_string_bytes(&[0xFE, 0xFF, 0x00, 0xE9]), "é");
}

#[test]
fn parser_reads_names_and_strings() {
    let data = b"/Font (Hello \\(x\\) (nested)\\n) tail";
    let mut p = EngineParser::new(data);
    assert_eq!(p.parse_name(), Ok("Font".to_string()));
    p.skip_ws();
    assert_eq!(p.peek_byte(), Some(b'('));
    assert_eq!(p.parse_string(), Ok("Hello (x) (nested)\n".to_string()));
    p.skip_ws();
    assert!(p.starts_with(b"tail"));
    assert_eq!(p.consume(b"tai"), Ok(()));
    assert_eq!(p.next_byte(), Some(b'l'));
    assert_eq!(p.next_byte(), None);
}

#[test]
fn parser_reports_what_it_expected() {
    let mut p = EngineParser::new(b"abc");
    assert_eq!(p.parse_name(), Err("expected '/'".to_string()));
    let mut q = EngineParser::new(b"abc");
    assert_eq!(q.consume(b"<<"), Err("expected '<<'".to_string()));
    assert_eq!(q.expect_byte(b'a'), Ok(()));
    assert_eq!(q.expect_byte(b'x'), Err("expected 'x'".to_string()));
}

#[test]
fn unterminated_string_ends_at_input_end() {
    let mut p = EngineParser::new(b"(abc");
    assert_eq!(p.parse_string(), Ok("abc".to_string()));
}

#[test]
fn type_tool_text_prefers_the_descriptor() {
    assert_eq!(type_tool_content(Some("a\rb".to_string()), Some("x".to_string())), "a\nb");
    assert_eq!(type_tool_content(None, Some("x\u{3}y".to_string())), "x\ny");
    assert_eq!(type_tool_content(None, None), "");
}

#[test]
fn type_tool_without_text_or_runs_is_refused() {
    assert_eq!(
        require_type_tool_text("", 0, 0),
        Err("type tool descriptor did not expose text content or runs".to_string())
    );
    assert_eq!(require_type_tool_text("", 1, 0), Ok(()));
    assert_eq!(require_type_tool_text("", 0, 2), Ok(()));
    assert_eq!(require_type_tool_text("hi", 0, 0), Ok(()));
}

#[test]
fn run_spans_follow_one_another() {
    assert_eq!(engine_run_spans(Some(vec![2, 0, 3]), 3, 4), vec![(0, 2), (2, 2)]);
    assert_eq!(engine_run_spans(Some(vec![2, 0, 3]), 3, 0), vec![(0, 2), (2, 3)]);
    assert_eq!(engine_run_spans(None, 1, 5), vec![(0, 5)]);
    assert_eq!(engine_run_spans(None, 2, 5), Vec::<(usize, usize)>::new());
    assert_eq!(engine_run_spans(None, 1, 0), Vec::<(usize, usize)>::new());
}

#[test]
fn run_font_falls_back_to_the_first() {
    assert_eq!(run_font_index(Some(1), Some(3)), Some(1));
    assert_eq!(run_font_index(Some(5), Some(3)), Some(0));
    assert_eq!(run_font_index(None, Some(3)), Some(0));
    assert_eq!(run_font_index(Some(0), Some(0)), None);
    assert_eq!(run_font_index(Some(0), None), None);
}
