//! Tests of the lexer: token boundaries, the two-character operator merge,
//! comments, numbers, keywords, strings with escapes and interpolation, and
//! raw triple-quoted strings with their trim rule.

use wren_compile::diag::DiagKind;
use wren_compile::lexer::Parser;
use wren_compile::token::{Token, TokenType, Value};

fn parser_for(src: &str) -> Parser {
    Parser::new(src.chars().collect(), true)
}

/// Lexes the whole source and returns every token in order, EOF included.
fn lex_all(src: &str) -> (Vec<Token>, Parser) {
    let mut p = parser_for(src);
    let mut out = Vec::new();
    loop {
        p.next_token();
        out.push(p.next.clone());
        if matches!(p.next.ty, TokenType::EOF) {
            break;
        }
        assert!(out.len() < 10_000, "lexer failed to make progress");
    }
    (out, p)
}

fn kinds(src: &str) -> Vec<TokenType> {
    lex_all(src).0.iter().map(|t| t.ty).collect()
}

fn value_text(v: &Value) -> String {
    match v {
        Value::Num(t) => t.iter().collect(),
        Value::Str(t) => t.iter().collect(),
        _ => panic!("token carries no text"),
    }
}

#[test]
fn two_char_operators_merge() {
    assert_eq!(kinds("=="), vec![TokenType::EQEQ, TokenType::EOF]);
    assert_eq!(kinds("!="), vec![TokenType::BANGEQ, TokenType::EOF]);
    assert_eq!(kinds("<="), vec![TokenType::LTEQ, TokenType::EOF]);
    assert_eq!(kinds(">="), vec![TokenType::GTEQ, TokenType::EOF]);
    assert_eq!(kinds("&&"), vec![TokenType::AMPAMP, TokenType::EOF]);
    assert_eq!(kinds("||"), vec![TokenType::PIPEPIPE, TokenType::EOF]);
    assert_eq!(kinds(".."), vec![TokenType::DOTDOT, TokenType::EOF]);
    assert_eq!(kinds("..."), vec![TokenType::DOTDOTDOT, TokenType::EOF]);
    assert_eq!(kinds("<<"), vec![TokenType::LTLT, TokenType::EOF]);
    assert_eq!(kinds(">>"), vec![TokenType::GTGT, TokenType::EOF]);
}

#[test]
fn two_char_operator_is_one_token() {
    // A merged operator spans both characters; the single-character tokens
    // only appear when the characters are separated.
    let (toks, _) = lex_all("==");
    assert_eq!(toks[0].length, 2);
    assert_eq!(
        kinds("= ="),
        vec![TokenType::EQ, TokenType::EQ, TokenType::EOF]
    );
    assert_eq!(
        kinds("< <"),
        vec![TokenType::LT, TokenType::LT, TokenType::EOF]
    );
}

#[test]
fn single_char_operators() {
    assert_eq!(
        kinds("( ) [ ] { } : , * % ^ + - ~ ? / = < > ! | & ."),
        vec![
            TokenType::LEFT_PAREN,
            TokenType::RIGHT_PAREN,
            TokenType::LEFT_BRACKET,
            TokenType::RIGHT_BRACKET,
            TokenType::LEFT_BRACE,
            TokenType::RIGHT_BRACE,
            TokenType::COLON,
            TokenType::COMMA,
            TokenType::STAR,
            TokenType::PERCENT,
            TokenType::CARET,
            TokenType::PLUS,
            TokenType::MINUS,
            TokenType::TILDE,
            TokenType::QUESTION,
            TokenType::SLASH,
            TokenType::EQ,
            TokenType::LT,
            TokenType::GT,
            TokenType::BANG,
            TokenType::PIPE,
            TokenType::AMP,
            TokenType::DOT,
            TokenType::EOF,
        ]
    );
}

#[test]
fn line_comment_is_skipped() {
    assert_eq!(
        kinds("a // rest is gone ==\nb"),
        vec![
            TokenType::NAME,
            TokenType::LINE,
            TokenType::NAME,
            TokenType::EOF
        ]
    );
}

#[test]
fn block_comment_nests_and_ends_exactly() {
    // The cursor stops right after the matching close: the `+` is the next
    // token.
    let (toks, p) = lex_all("/* a /* b */ c */+");
    assert_eq!(toks[0].ty, TokenType::PLUS);
    assert!(!p.has_error);
}

#[test]
fn unterminated_block_comment_sets_error() {
    let (toks, p) = lex_all("/* open /* close only once */");
    assert_eq!(toks.last().unwrap().ty, TokenType::EOF);
    assert!(p.has_error);
    assert!(p
        .diagnostics
        .iter()
        .any(|d| matches!(d.kind, DiagKind::UnterminatedBlockComment)));
    // Consumption stopped at the source's end.
    assert_eq!(p.current_char_i, p.source.len());
}

#[test]
fn number_stops_at_method_call_dot() {
    let (toks, _) = lex_all("123.abs");
    assert_eq!(toks[0].ty, TokenType::NUMBER);
    assert_eq!(toks[0].length, 3);
    assert_eq!(value_text(&toks[0].value), "123");
    assert_eq!(toks[1].ty, TokenType::DOT);
    assert_eq!(toks[2].ty, TokenType::NAME);
    assert_eq!(value_text(&toks[2].value), "abs");
}

#[test]
fn number_fraction_and_exponent() {
    let (toks, _) = lex_all("1.25");
    assert_eq!(toks[0].ty, TokenType::NUMBER);
    assert_eq!(value_text(&toks[0].value), "1.25");
    let (toks, _) = lex_all("2e+10");
    assert_eq!(value_text(&toks[0].value), "2e+10");
    let (toks, _) = lex_all("2E-3");
    assert_eq!(value_text(&toks[0].value), "2E-3");
}

#[test]
fn number_exponent_needs_digit() {
    let (_, p) = lex_all("2e");
    assert!(p.has_error);
    assert!(p
        .diagnostics
        .iter()
        .any(|d| matches!(d.kind, DiagKind::UnterminatedScientificNotation)));
}

#[test]
fn hex_number() {
    let (toks, p) = lex_all("0x1Ff");
    assert_eq!(toks[0].ty, TokenType::NUMBER);
    assert_eq!(toks[0].length, 5);
    assert_eq!(value_text(&toks[0].value), "0x1Ff");
    assert!(!p.has_error);
}

#[test]
fn read_hex_digit_values() {
    let mut p = parser_for("fG");
    assert_eq!(p.read_hex_digit(), 15);
    // A non-digit is left unconsumed and reported as -1.
    let at = p.current_char_i;
    assert_eq!(p.read_hex_digit(), -1);
    assert_eq!(p.current_char_i, at);
}

#[test]
fn keywords_and_names() {
    assert_eq!(
        kinds("class while var notakeyword classy"),
        vec![
            TokenType::CLASS,
            TokenType::WHILE,
            TokenType::VAR,
            TokenType::NAME,
            TokenType::NAME,
            TokenType::EOF
        ]
    );
    assert_eq!(
        kinds("break continue construct else false for foreign if import as in is null return static super this true"),
        vec![
            TokenType::BREAK,
            TokenType::CONTINUE,
            TokenType::CONSTRUCT,
            TokenType::ELSE,
            TokenType::FALSE,
            TokenType::FOR,
            TokenType::FOREIGN,
            TokenType::IF,
            TokenType::IMPORT,
            TokenType::AS,
            TokenType::IN,
            TokenType::IS,
            TokenType::NULL,
            TokenType::RETURN,
            TokenType::STATIC,
            TokenType::SUPER,
            TokenType::THIS,
            TokenType::TRUE,
            TokenType::EOF
        ]
    );
}

#[test]
fn fields_and_static_fields() {
    let (toks, _) = lex_all("_field __static");
    assert_eq!(toks[0].ty, TokenType::FIELD);
    assert_eq!(value_text(&toks[0].value), "_field");
    assert_eq!(toks[1].ty, TokenType::STATIC_FIELD);
    assert_eq!(value_text(&toks[1].value), "__static");
}

#[test]
fn line_token_and_line_numbers() {
    let (toks, _) = lex_all("a\nb");
    assert_eq!(toks[0].ty, TokenType::NAME);
    assert_eq!(toks[0].line, 1);
    assert_eq!(toks[1].ty, TokenType::LINE);
    assert_eq!(toks[1].line, 1);
    assert_eq!(toks[2].ty, TokenType::NAME);
    assert_eq!(toks[2].line, 2);
}

#[test]
fn shebang_is_skipped_on_first_line() {
    let (toks, _) = lex_all("#!/usr/bin/env something\nvar");
    assert_eq!(toks[0].ty, TokenType::LINE);
    assert_eq!(toks[1].ty, TokenType::VAR);
}

#[test]
fn plain_string_value() {
    let (toks, p) = lex_all("\"hello\"");
    assert_eq!(toks[0].ty, TokenType::STRING);
    assert_eq!(value_text(&toks[0].value), "hello");
    assert!(!p.has_error);
}

#[test]
fn string_escapes() {
    let (toks, p) = lex_all("\"a\\nb\\t\\\\\\\"\\%\\0\"");
    assert_eq!(value_text(&toks[0].value), "a\nb\t\\\"%\0");
    assert!(!p.has_error);
    let (toks, _) = lex_all("\"\\x41\\u0042\\U00000043\"");
    assert_eq!(value_text(&toks[0].value), "ABC");
}

#[test]
fn invalid_escape_is_error_but_scanning_continues() {
    let (toks, p) = lex_all("\"a\\qb\"");
    assert!(p.has_error);
    assert!(p
        .diagnostics
        .iter()
        .any(|d| matches!(d.kind, DiagKind::InvalidEscape)));
    // Both surrounding characters still made it into the value.
    assert_eq!(value_text(&toks[0].value), "ab");
}

#[test]
fn unterminated_string_sets_error() {
    let (_, p) = lex_all("\"never closed");
    assert!(p.has_error);
    assert!(p
        .diagnostics
        .iter()
        .any(|d| matches!(d.kind, DiagKind::UnterminatedString)));
    assert_eq!(p.current_char_i, p.source.len());
}

#[test]
fn interpolation_splits_string() {
    let (toks, p) = lex_all("\"a %(b) c\"");
    assert_eq!(
        toks.iter().map(|t| t.ty).collect::<Vec<_>>(),
        vec![
            TokenType::INTERPOLATION,
            TokenType::NAME,
            TokenType::STRING,
            TokenType::EOF
        ]
    );
    assert_eq!(value_text(&toks[0].value), "a ");
    assert_eq!(value_text(&toks[2].value), " c");
    assert!(!p.has_error);
}

#[test]
fn nested_interpolation() {
    let (toks, p) = lex_all("\"a %(\"b %(c) d\") e\"");
    assert_eq!(
        toks.iter().map(|t| t.ty).collect::<Vec<_>>(),
        vec![
            TokenType::INTERPOLATION,
            TokenType::INTERPOLATION,
            TokenType::NAME,
            TokenType::STRING,
            TokenType::STRING,
            TokenType::EOF
        ]
    );
    assert!(!p.has_error);
}

#[test]
fn interpolation_depth_limit() {
    // With all eight interpolation levels already open, one more is a
    // lexical error.
    let mut p = parser_for("\"%(x)\"");
    p.parens = vec![1, 1, 1, 1, 1, 1, 1, 1];
    p.next_token();
    assert!(p.has_error);
    assert!(p
        .diagnostics
        .iter()
        .any(|d| matches!(d.kind, DiagKind::InterpolationTooDeep)));
}

#[test]
fn raw_string_plain() {
    let (toks, p) = lex_all("\"\"\"abc\"\"\"");
    assert_eq!(toks[0].ty, TokenType::STRING);
    assert_eq!(value_text(&toks[0].value), "abc");
    assert!(!p.has_error);
}

#[test]
fn raw_string_trims_whitespace_first_and_last_lines() {
    // The purely-whitespace first line is dropped entirely, and so is the
    // purely-whitespace last line from its newline on.
    let (toks, p) = lex_all("\"\"\"  \n  text\n  \"\"\"");
    assert_eq!(toks[0].ty, TokenType::STRING);
    assert_eq!(value_text(&toks[0].value), "  text");
    assert!(!p.has_error);
}

#[test]
fn raw_string_trims_leading_line_only() {
    let (toks, _) = lex_all("\"\"\"  \ntext\"\"\"");
    assert_eq!(value_text(&toks[0].value), "text");
    let (toks, _) = lex_all("\"\"\"\nhello\n\"\"\"");
    assert_eq!(value_text(&toks[0].value), "hello");
}

#[test]
fn raw_string_single_line_is_not_trimmed() {
    let (toks, _) = lex_all("\"\"\"  spaced  \"\"\"");
    assert_eq!(value_text(&toks[0].value), "  spaced  ");
}

#[test]
fn raw_string_drops_carriage_returns() {
    let (toks, _) = lex_all("\"\"\"a\r\nb\"\"\"");
    assert_eq!(value_text(&toks[0].value), "a\nb");
}

#[test]
fn unterminated_raw_string_sets_error() {
    let (_, p) = lex_all("\"\"\"open");
    assert!(p.has_error);
    assert!(p
        .diagnostics
        .iter()
        .any(|d| matches!(d.kind, DiagKind::UnterminatedRawString)));
    assert!(p.current_char_i <= p.source.len());
}

#[test]
fn invalid_character_yields_error_token() {
    let (toks, p) = lex_all("$");
    assert_eq!(toks[0].ty, TokenType::ERROR);
    assert_eq!(toks[0].length, 0);
    assert!(p.has_error);
    assert!(p
        .diagnostics
        .iter()
        .any(|d| matches!(d.kind, DiagKind::InvalidCharacter)));
}

#[test]
fn error_printing_can_be_suppressed() {
    // A speculatively compiled module records nothing, but the sticky flag
    // still tells the caller to discard the output.
    let mut p = Parser::new("\"open".chars().collect(), false);
    p.next_token();
    assert!(p.has_error);
    assert!(p.diagnostics.is_empty());
}

#[test]
fn eof_token_repeats() {
    let mut p = parser_for("");
    p.next_token();
    assert_eq!(p.next.ty, TokenType::EOF);
    p.next_token();
    assert_eq!(p.next.ty, TokenType::EOF);
    assert_eq!(p.current.ty, TokenType::EOF);
}

#[test]
fn parens_inside_interpolation_nest_correctly() {
    // A "(" inside an interpolated expression deepens the count its ")"
    // must unwind before the string resumes.
    assert_eq!(
        kinds("\"x %((1)) y\""),
        vec![
            TokenType::INTERPOLATION,
            TokenType::LEFT_PAREN,
            TokenType::NUMBER,
            TokenType::RIGHT_PAREN,
            TokenType::STRING,
            TokenType::EOF
        ]
    );
}

#[test]
fn small_program_token_stream() {
    let src = "class Point {\n  construct new(x) { _x = x }\n}\nvar p = Point.new(0x10)";
    assert_eq!(
        kinds(src),
        vec![
            TokenType::CLASS,
            TokenType::NAME,
            TokenType::LEFT_BRACE,
            TokenType::LINE,
            TokenType::CONSTRUCT,
            TokenType::NAME,
            TokenType::LEFT_PAREN,
            TokenType::NAME,
            TokenType::RIGHT_PAREN,
            TokenType::LEFT_BRACE,
            TokenType::FIELD,
            TokenType::EQ,
            TokenType::NAME,
            TokenType::RIGHT_BRACE,
            TokenType::LINE,
            TokenType::RIGHT_BRACE,
            TokenType::LINE,
            TokenType::VAR,
            TokenType::NAME,
            TokenType::EQ,
            TokenType::NAME,
            TokenType::DOT,
            TokenType::NAME,
            TokenType::LEFT_PAREN,
            TokenType::NUMBER,
            TokenType::RIGHT_PAREN,
            TokenType::EOF
        ]
    );
}

#[test]
fn non_scalar_unicode_escape_is_error() {
    // A surrogate code point is no Unicode scalar value: a lexical error,
    // and the escape contributes no character.
    let (toks, p) = lex_all("\"a\\uD800b\"");
    assert!(p.has_error);
    assert!(p
        .diagnostics
        .iter()
        .any(|d| matches!(d.kind, DiagKind::InvalidCodePoint)));
    assert_eq!(value_text(&toks[0].value), "ab");
    // So is a value past the last code point.
    let (toks, p) = lex_all("\"a\\U00110000b\"");
    assert!(p.has_error);
    assert!(p
        .diagnostics
        .iter()
        .any(|d| matches!(d.kind, DiagKind::InvalidCodePoint)));
    assert_eq!(value_text(&toks[0].value), "ab");
}

#[test]
fn recording_a_diagnostic_sets_the_sticky_flag() {
    let mut p = parser_for("x");
    assert!(!p.has_error);
    p.print_error(1, DiagKind::InvalidCharacter);
    assert!(p.has_error);
    assert_eq!(p.diagnostics.len(), 1);
}
