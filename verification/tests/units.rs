//! Tests of the individual pieces: token construction, the scanner's
//! stepping, the renderer on hand-built token sequences, and diagnostics.

use marsdown::parser::parse_tokens;
use marsdown::scanner::Scanner;
use marsdown::tokens::{Token, TokenType};

#[test]
fn token_new_keeps_fields() {
    let t = Token::new(TokenType::Hr, "---".to_string(), 7);
    assert_eq!(t.toktype, TokenType::Hr);
    assert_eq!(t.lexeme, "---");
    assert_eq!(t.line, 7);
}

#[test]
fn scanner_new_starts_clean() {
    let s = Scanner::new("ab".to_string());
    assert_eq!(s.source, "ab");
    assert_eq!(s.chars, vec!['a', 'b']);
    assert_eq!(s.start, 0);
    assert_eq!(s.current, 0);
    assert_eq!(s.line, 1);
    assert!(s.tokens.is_empty());
}

#[test]
fn scan_token_steps_one_dispatch() {
    let mut s = Scanner::new("-x".to_string());
    s.scan_token();
    assert_eq!(s.current, 1);
    assert_eq!(s.tokens.len(), 1);
    assert_eq!(s.tokens[0].toktype, TokenType::Char('-'));
    s.scan_token();
    assert_eq!(s.current, 2);
    assert_eq!(s.tokens[1].toktype, TokenType::Char('x'));
}

#[test]
fn multibyte_characters_are_not_split() {
    let mut s = Scanner::new("é✓\n".to_string());
    s.scan_tokens();
    let types: Vec<TokenType> = s.tokens.iter().map(|t| t.toktype.clone()).collect();
    assert_eq!(
        types,
        vec![
            TokenType::Char('é'),
            TokenType::Char('✓'),
            TokenType::Br
        ]
    );
    assert_eq!(parse_tokens(s.tokens), "<p>é✓</p>\n");
}

#[test]
fn line_numbers_advance_at_newlines() {
    let mut s = Scanner::new("a\nb".to_string());
    s.scan_tokens();
    let lines: Vec<usize> = s.tokens.iter().map(|t| t.line).collect();
    assert_eq!(lines, vec![1, 1, 2]);
}

#[test]
fn lexemes_carry_the_matched_text() {
    let mut s = Scanner::new("a`x`".to_string());
    s.scan_tokens();
    assert_eq!(s.tokens[0].lexeme, "a");
    assert_eq!(s.tokens[1].lexeme, "`x`");
}

#[test]
fn renderer_adds_id_by_position_alone() {
    let toks = vec![
        Token::new(TokenType::Br, "\n".to_string(), 1),
        Token::new(TokenType::H1("My Title".to_string()), "# My Title".to_string(), 2),
    ];
    assert_eq!(parse_tokens(toks), "\n<h1 id=\"my-title\">My Title</h1>");
}

#[test]
fn renderer_keeps_every_variant() {
    let toks = vec![
        Token::new(TokenType::Em("e".to_string()), String::new(), 1),
        Token::new(TokenType::Bold("b".to_string()), String::new(), 1),
        Token::new(TokenType::Pre("p".to_string()), String::new(), 1),
        Token::new(TokenType::Code("c".to_string()), String::new(), 1),
        Token::new(TokenType::Link("a".to_string(), "u".to_string()), String::new(), 1),
        Token::new(TokenType::Img("a".to_string(), "u".to_string()), String::new(), 1),
        Token::new(TokenType::Hr, String::new(), 1),
        Token::new(TokenType::H2("h".to_string()), String::new(), 1),
        Token::new(TokenType::H3("h".to_string()), String::new(), 1),
        Token::new(TokenType::Br, String::new(), 1),
        Token::new(TokenType::Char('z'), String::new(), 1),
    ];
    assert_eq!(
        parse_tokens(toks),
        "<em>e</em><b>b</b><pre>p</pre><code>c</code><a href=\"u\">a</a><img src=\"u\" alt=\"a\"/><hr><h2 id=\"h\">h</h2><h3 id=\"h\">h</h3>\n<p>z</p>"
    );
}

#[test]
fn paragraph_runs_group_by_variant() {
    let toks = vec![
        Token::new(TokenType::Char('a'), String::new(), 1),
        Token::new(TokenType::Char('b'), String::new(), 1),
        Token::new(TokenType::Hr, String::new(), 1),
        Token::new(TokenType::Char('c'), String::new(), 1),
    ];
    assert_eq!(parse_tokens(toks), "<p>ab</p><hr><p>c</p>");
}

#[test]
fn break_closes_open_paragraph() {
    let toks = vec![
        Token::new(TokenType::Char('a'), String::new(), 1),
        Token::new(TokenType::Br, String::new(), 1),
        Token::new(TokenType::Br, String::new(), 2),
    ];
    assert_eq!(parse_tokens(toks), "<p>a</p>\n\n");
}

#[test]
fn slug_lowercases_and_dashes() {
    let toks = vec![
        Token::new(TokenType::Br, String::new(), 1),
        Token::new(TokenType::H3("A B\tC".to_string()), String::new(), 1),
    ];
    assert_eq!(parse_tokens(toks), "\n<h3 id=\"a-b\tc\">A B\tC</h3>");
}
