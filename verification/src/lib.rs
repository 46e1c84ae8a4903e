//! A small markdown-to-HTML pipeline: a character-level scanner that turns a
//! document into a sequence of tokens, and a renderer that turns the token
//! sequence into an HTML fragment. Both passes are total: every input string
//! scans to some finite token sequence, and every token sequence renders.

pub mod parser;
pub mod scanner;
pub mod text;
pub mod tokens;

use vstd::prelude::*;

verus! {

/// Scans and renders a whole document in one call. Total: it is defined for
/// every input string, never fails, and terminates; the result is fixed by
/// the composition of the scanner's and the renderer's specifications.
pub fn render_markdown(source: String) -> (html: String)
    ensures
        html@ == parser::render_spec(scanner::scan_spec(source@)),
{
    let mut s = scanner::Scanner::new(source);
    s.scan_tokens();
    proof {
        assert(tokens::token_views(Seq::<tokens::Token>::empty()) + scanner::scan_spec(s.source@)
            =~= scanner::scan_spec(s.source@));
    }
    parser::parse_tokens(s.tokens)
}

} // verus!
