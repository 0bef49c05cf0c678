use cync::lexer::{LexResult, LexicalError, Position, decimal_text};

#[test]
fn positions_count_lines_and_columns() {
    let input = "a\nbc d";
    let p = Position::from_span("f.cy".to_string(), (5, 6), input);
    assert_eq!(p.line, 2);
    assert_eq!(p.column, 4);
    assert_eq!(p.span(), (5, 6));
    let first = Position::from_span("f.cy".to_string(), (0, 1), input);
    assert_eq!((first.line, first.column), (0, 1));
    let after_break = Position::from_span("f.cy".to_string(), (2, 3), input);
    assert_eq!((after_break.line, after_break.column), (1, 2));
    let crlf = Position::from_span("f.cy".to_string(), (4, 5), "ab\r\nx");
    assert_eq!((crlf.line, crlf.column), (1, 3));
}

#[test]
fn positions_print_one_based() {
    let p = Position::new("f.cy".to_string(), 5, 6, 2, 4);
    assert_eq!(p.print_line_column(), "f.cy, Line 3, Column 5");
}

#[test]
fn decimal_texts() {
    assert_eq!(decimal_text(0), "0");
    assert_eq!(decimal_text(7), "7");
    assert_eq!(decimal_text(1234), "1234");
    assert_eq!(decimal_text(usize::MAX), usize::MAX.to_string());
}

#[test]
fn lexemes_make_tokens_and_errors() {
    let input = "ab ?";
    let path = "f.cy".to_string();
    let mut r: LexResult<u32> = LexResult::new();
    assert!(r.is_success());
    let pos = r.take_lexeme(Ok((1, (0, 2))), 0, &path, input);
    assert_eq!(pos, 2);
    let pos = r.take_lexeme(Err(LexicalError::InvalidToken), pos, &path, input);
    assert_eq!(pos, 3);
    r.take_end(0, &path, input);
    assert!(r.has_errors());
    assert!(!r.is_success());
    assert_eq!(r.tokens.len(), 2);
    assert_eq!(r.tokens[0].t_gut, 1);
    assert_eq!(r.tokens[1].position.start, 4);
    assert_eq!(r.tokens[1].position.end, 0);
    assert_eq!(r.errors[0].1.start, 2);
    assert_eq!(r.errors[0].1.end, 3);
}
