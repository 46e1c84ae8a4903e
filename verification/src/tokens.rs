//! The token vocabulary shared by the scanner and the renderer.
//!
//! A document is scanned into a finite sequence of [`Token`]s. Each token
//! carries a [`TokenType`] (the only part the renderer looks at), together
//! with the raw matched text and the source line it started on, which exist
//! for diagnostics only.

use vstd::prelude::*;

verus! {

/// The mathematical value of a token: the variant together with the text it
/// carries, with every string abstracted to a sequence of characters.
/// Contracts throughout the crate speak of sequences of these values.
pub enum TokenView {
    Char(char),
    Link(Seq<char>, Seq<char>),
    Img(Seq<char>, Seq<char>),
    H1(Seq<char>),
    H2(Seq<char>),
    H3(Seq<char>),
    Hr,
    Br,
    Pre(Seq<char>),
    Code(Seq<char>),
    Em(Seq<char>),
    Bold(Seq<char>),
}

/// The closed set of token variants the scanner can produce.
///
/// `Link` and `Img` carry the alt text and the url, in that order. The
/// heading variants carry the title. `Pre` and `Code` carry their content
/// with `<` and `>` already escaped by the scanner.
#[derive(Debug, Clone, PartialEq, Eq)]
pub enum TokenType {
    Char(char),
    Link(String, String),
    Img(String, String),
    H1(String),
    H2(String),
    H3(String),
    Hr,
    Br,
    Pre(String),
    Code(String),
    Em(String),
    Bold(String),
}

impl View for TokenType {
    type V = TokenView;

    open spec fn view(&self) -> TokenView {
        match self {
            TokenType::Char(c) => TokenView::Char(*c),
            TokenType::Link(alt, url) => TokenView::Link(alt@, url@),
            TokenType::Img(alt, url) => TokenView::Img(alt@, url@),
            TokenType::H1(title) => TokenView::H1(title@),
            TokenType::H2(title) => TokenView::H2(title@),
            TokenType::H3(title) => TokenView::H3(title@),
            TokenType::Hr => TokenView::Hr,
            TokenType::Br => TokenView::Br,
            TokenType::Pre(code) => TokenView::Pre(code@),
            TokenType::Code(code) => TokenView::Code(code@),
            TokenType::Em(text) => TokenView::Em(text@),
            TokenType::Bold(text) => TokenView::Bold(text@),
        }
    }
}

/// One scanned token: the variant, the raw matched text, and the 1-based
/// source line at which it started. The last two fields are diagnostics;
/// rendering depends on `toktype` alone.
#[derive(Debug, Clone, PartialEq, Eq)]
pub struct Token {
    pub toktype: TokenType,
    pub lexeme: String,
    pub line: usize,
}

impl Token {
    pub fn new(toktype: TokenType, lexeme: String, line: usize) -> (t: Token)
        ensures
            t.toktype == toktype,
            t.lexeme == lexeme,
            t.line == line,
    {
        Token { toktype, lexeme, line }
    }
}

/// The sequence of token values carried by a sequence of tokens.
pub open spec fn token_views(toks: Seq<Token>) -> Seq<TokenView> {
    toks.map_values(|t: Token| t.toktype@)
}

/// The token value of one literal character.
pub open spec fn char_tok(c: char) -> TokenView {
    TokenView::Char(c)
}

} // verus!
