use gui_lsp::encode::{sort_tokens, tokens_in_span, ClassifiedToken, EncodedToken};
use gui_lsp::legend::{legend, LegendKind, TokenKind};
use gui_lsp::store::{Backend, LexError};

fn tok(start: usize, end: usize, kind: TokenKind) -> ClassifiedToken {
    ClassifiedToken { start, end, kind }
}

fn enc(delta_line: u32, delta_start: u32, length: u32, token_type: u32) -> EncodedToken {
    EncodedToken { delta_line, delta_start, length, token_type, token_modifiers_bitset: 0 }
}

fn lex_error() -> LexError {
    LexError { message: "unrecognized character '?'".to_string(), start: 0, end: 1 }
}

fn opened(text: &str, tokens: Vec<ClassifiedToken>) -> Backend {
    let mut b = Backend::new();
    assert!(b.on_change("file:///a.gui".to_string(), text.to_string(), Ok(tokens)).is_ok());
    b
}

#[test]
fn full_encoding_scenario() {
    let b = opened(
        "true\n42 \"s\"",
        vec![tok(0, 4, TokenKind::Bool), tok(5, 7, TokenKind::Number), tok(8, 11, TokenKind::Str)],
    );
    let r = b.semantic_tokens_full("file:///a.gui").unwrap();
    assert_eq!(r, vec![enc(0, 0, 4, 5), enc(1, 0, 2, 1), enc(0, 3, 3, 2)]);
}

#[test]
fn full_twice_is_identical() {
    let b = opened("#include\n.x 1", vec![tok(10, 12, TokenKind::Number), tok(0, 8, TokenKind::Directive), tok(9, 11, TokenKind::Setter)]);
    let first = b.semantic_tokens_full("file:///a.gui");
    let second = b.semantic_tokens_full("file:///a.gui");
    assert!(first.is_some());
    assert_eq!(first, second);
}

#[test]
fn same_text_reencodes_identically() {
    let text = "@Box -> x\n  .width 10";
    let tokens = vec![tok(0, 4, TokenKind::Definition), tok(5, 7, TokenKind::Inherits), tok(12, 18, TokenKind::Setter), tok(19, 21, TokenKind::Number)];
    let mut b = opened(text, tokens.clone());
    let before = b.semantic_tokens_full("file:///a.gui").unwrap();
    assert!(b.on_change("file:///a.gui".to_string(), text.to_string(), Ok(tokens)).is_ok());
    assert_eq!(b.semantic_tokens_full("file:///a.gui").unwrap(), before);
    assert_eq!(before, vec![enc(0, 0, 4, 7), enc(0, 5, 2, 8), enc(1, 2, 6, 4), enc(0, 7, 2, 1)]);
}

#[test]
fn closed_document_is_unavailable() {
    let mut b = opened("true", vec![tok(0, 4, TokenKind::Bool)]);
    assert!(b.semantic_tokens_full("file:///a.gui").is_some());
    b.did_close("file:///a.gui");
    assert_eq!(b.semantic_tokens_full("file:///a.gui"), None);
    assert_eq!(b.semantic_tokens_range("file:///a.gui", 0, 4), None);
    assert_eq!(b.offset_of("file:///a.gui", 0, 0), None);
}

#[test]
fn range_without_tokens_is_empty() {
    let b = opened("true   false", vec![tok(0, 4, TokenKind::Bool), tok(7, 12, TokenKind::Bool)]);
    assert_eq!(b.semantic_tokens_range("file:///a.gui", 4, 7), Some(vec![]));
}

#[test]
fn failed_change_keeps_tokens() {
    let mut b = opened("true", vec![tok(0, 4, TokenKind::Bool)]);
    let before = b.semantic_tokens_full("file:///a.gui");
    let r = b.on_change("file:///a.gui".to_string(), "true ?".to_string(), Err(lex_error()));
    assert_eq!(r, Err(lex_error()));
    assert_eq!(b.semantic_tokens_full("file:///a.gui"), before);
}

#[test]
fn full_has_at_most_one_entry_per_token() {
    let b = opened(
        "ab\ncd",
        vec![tok(3, 5, TokenKind::Str), tok(0, 2, TokenKind::Ignored), tok(40, 41, TokenKind::Number), tok(0, 1, TokenKind::Number)],
    );
    let r = b.semantic_tokens_full("file:///a.gui").unwrap();
    assert!(r.len() <= 4);
    assert_eq!(r, vec![enc(0, 0, 1, 1), enc(1, 0, 2, 2)]);
}

#[test]
fn unknown_document_is_unavailable() {
    let b = Backend::new();
    assert_eq!(b.semantic_tokens_full("file:///none.gui"), None);
    assert_eq!(b.semantic_tokens_range("file:///none.gui", 0, 10), None);
}

#[test]
fn open_with_failed_lex_has_no_tokens() {
    let mut b = Backend::new();
    let r = b.on_change("file:///a.gui".to_string(), "?".to_string(), Err(lex_error()));
    assert!(r.is_err());
    assert_eq!(b.semantic_tokens_full("file:///a.gui"), None);
    assert_eq!(b.offset_of("file:///a.gui", 0, 1), Some(1));
}

#[test]
fn dropped_token_does_not_move_cursor() {
    let b = opened("ab cd ef", vec![tok(0, 2, TokenKind::Number), tok(3, 5, TokenKind::Ignored), tok(6, 8, TokenKind::Number)]);
    assert_eq!(b.semantic_tokens_full("file:///a.gui").unwrap(), vec![enc(0, 0, 2, 1), enc(0, 6, 2, 1)]);
}

#[test]
fn out_of_bounds_token_is_dropped() {
    let b = opened("ab", vec![tok(0, 2, TokenKind::Number), tok(3, 4, TokenKind::Number)]);
    assert_eq!(b.semantic_tokens_full("file:///a.gui").unwrap(), vec![enc(0, 0, 2, 1)]);
}

#[test]
fn reversed_range_is_dropped() {
    let b = opened("abcd", vec![tok(2, 1, TokenKind::Number), tok(3, 4, TokenKind::Str)]);
    assert_eq!(b.semantic_tokens_full("file:///a.gui").unwrap(), vec![enc(0, 3, 1, 2)]);
}

#[test]
fn multibyte_column_counts_chars_length_counts_bytes() {
    // "é" takes two bytes: the string token starts at byte 3, char column 2.
    let b = opened("é \"ü\"", vec![tok(3, 7, TokenKind::Str)]);
    assert_eq!(b.semantic_tokens_full("file:///a.gui").unwrap(), vec![enc(0, 2, 4, 2)]);
}

#[test]
fn crlf_line_break() {
    let b = opened("1\r\n2", vec![tok(0, 1, TokenKind::Number), tok(3, 4, TokenKind::Number)]);
    assert_eq!(b.semantic_tokens_full("file:///a.gui").unwrap(), vec![enc(0, 0, 1, 1), enc(1, 0, 1, 1)]);
}

#[test]
fn new_line_uses_absolute_column() {
    let b = opened("    1\n  2", vec![tok(4, 5, TokenKind::Number), tok(8, 9, TokenKind::Number)]);
    assert_eq!(b.semantic_tokens_full("file:///a.gui").unwrap(), vec![enc(0, 4, 1, 1), enc(1, 2, 1, 1)]);
}

#[test]
fn range_keeps_overlapping_tokens_only() {
    let b = opened("1 2\n3 4", vec![tok(6, 7, TokenKind::Number), tok(0, 1, TokenKind::Number), tok(2, 3, TokenKind::Number), tok(4, 5, TokenKind::Number)]);
    assert_eq!(b.semantic_tokens_range("file:///a.gui", 2, 5), Some(vec![enc(0, 2, 1, 1), enc(1, 0, 1, 1)]));
}

#[test]
fn range_uses_line_based_rule() {
    // Second token lies on a later line at a smaller column.
    let b = opened("   1\n2", vec![tok(3, 4, TokenKind::Number), tok(5, 6, TokenKind::Number)]);
    assert_eq!(b.semantic_tokens_range("file:///a.gui", 0, 6), Some(vec![enc(0, 3, 1, 1), enc(1, 0, 1, 1)]));
}

#[test]
fn change_replaces_text_and_tokens() {
    let mut b = opened("true", vec![tok(0, 4, TokenKind::Bool)]);
    assert!(b.on_change("file:///a.gui".to_string(), "\n7".to_string(), Ok(vec![tok(1, 2, TokenKind::Number)])).is_ok());
    assert_eq!(b.semantic_tokens_full("file:///a.gui").unwrap(), vec![enc(1, 0, 1, 1)]);
}

#[test]
fn documents_are_independent() {
    let mut b = opened("true", vec![tok(0, 4, TokenKind::Bool)]);
    assert!(b.on_change("file:///b.gui".to_string(), "1".to_string(), Ok(vec![tok(0, 1, TokenKind::Number)])).is_ok());
    b.did_close("file:///b.gui");
    assert_eq!(b.semantic_tokens_full("file:///a.gui").unwrap(), vec![enc(0, 0, 4, 5)]);
}

#[test]
fn offset_of_line_and_column() {
    let b = opened("ab\ncé\nf", vec![]);
    assert_eq!(b.offset_of("file:///a.gui", 1, 0), Some(3));
    assert_eq!(b.offset_of("file:///a.gui", 2, 0), Some(7));
    assert_eq!(b.offset_of("file:///a.gui", 2, 1), Some(8));
    assert_eq!(b.offset_of("file:///a.gui", 2, 2), None);
    assert_eq!(b.offset_of("file:///a.gui", 9, 0), None);
}

#[test]
fn sort_is_stable_by_start() {
    let v = vec![tok(5, 6, TokenKind::Number), tok(1, 2, TokenKind::Str), tok(5, 7, TokenKind::Bool), tok(0, 1, TokenKind::Setter)];
    let s = sort_tokens(&v);
    assert_eq!(s, vec![tok(0, 1, TokenKind::Setter), tok(1, 2, TokenKind::Str), tok(5, 6, TokenKind::Number), tok(5, 7, TokenKind::Bool)]);
}

#[test]
fn span_filter_is_half_open() {
    let v = vec![tok(0, 2, TokenKind::Number), tok(2, 4, TokenKind::Number), tok(4, 6, TokenKind::Number)];
    assert_eq!(tokens_in_span(&v, 2, 4), vec![tok(2, 4, TokenKind::Number)]);
    assert_eq!(tokens_in_span(&v, 1, 5), v);
    assert_eq!(tokens_in_span(&v, 6, 9), vec![]);
}

#[test]
fn legend_order_and_indices() {
    let l = legend();
    assert_eq!(l.len(), 9);
    let kinds = [
        (TokenKind::Bool, LegendKind::Keyword),
        (TokenKind::Number, LegendKind::Number),
        (TokenKind::Str, LegendKind::String),
        (TokenKind::Directive, LegendKind::Macro),
        (TokenKind::Setter, LegendKind::Method),
        (TokenKind::Definition, LegendKind::Class),
        (TokenKind::Inherits, LegendKind::Operator),
    ];
    for (k, lk) in kinds {
        let i = k.to_legend_type().unwrap() as usize;
        assert_eq!(l[i], lk);
    }
    assert_eq!(TokenKind::Ignored.to_legend_type(), None);
    assert_eq!(l[0], LegendKind::Comment);
}
