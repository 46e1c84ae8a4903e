//! The renderer: one left-to-right pass over a token sequence, producing an
//! HTML fragment. A maximal run of consecutive `Char` tokens is wrapped in
//! one paragraph; a heading gets an anchor id unless it is the very first
//! token; everything else renders to its direct HTML equivalent.
//!
//! The output is fixed by the spec functions [`render_spec`] and
//! [`render_from`]: a two-state machine over the token sequence whose state
//! is whether a paragraph is open.

use vstd::prelude::*;

use crate::scanner::char_toks;
use crate::scanner::lemma_scan_plain_text;
use crate::scanner::plain_char;
use crate::scanner::scan_spec;
use crate::text::dashed;
use crate::text::lower_of;
use crate::text::push_char;
use crate::tokens::Token;
use crate::tokens::TokenType;
use crate::tokens::TokenView;
use crate::tokens::token_views;

verus! {

/// The anchor id of a heading title: spaces become hyphens, then the whole
/// title is lowercased.
pub open spec fn slug(title: Seq<char>) -> Seq<char> {
    lower_of(dashed(title))
}

/// The HTML of one token that is neither `Char` nor `Br`. `first` says
/// whether the token is the very first of the document; only a heading
/// renders differently there, dropping its anchor id because no content
/// precedes it.
pub open spec fn html_of(t: TokenView, first: bool) -> Seq<char>
    recommends
        !(t is Char),
        !(t is Br),
{
    match t {
        TokenView::H1(title) => if first {
            "<h1>"@ + title + "</h1>"@
        } else {
            "<h1 id=\""@ + slug(title) + "\">"@ + title + "</h1>"@
        },
        TokenView::H2(title) => if first {
            "<h2>"@ + title + "</h2>"@
        } else {
            "<h2 id=\""@ + slug(title) + "\">"@ + title + "</h2>"@
        },
        TokenView::H3(title) => if first {
            "<h3>"@ + title + "</h3>"@
        } else {
            "<h3 id=\""@ + slug(title) + "\">"@ + title + "</h3>"@
        },
        TokenView::Hr => "<hr>"@,
        TokenView::Img(alt, url) => "<img src=\""@ + url + "\" alt=\""@ + alt + "\"/>"@,
        TokenView::Link(alt, url) => "<a href=\""@ + url + "\">"@ + alt + "</a>"@,
        TokenView::Code(code) => "<code>"@ + code + "</code>"@,
        TokenView::Pre(code) => "<pre>"@ + code + "</pre>"@,
        TokenView::Bold(text) => "<b>"@ + text + "</b>"@,
        TokenView::Em(text) => "<em>"@ + text + "</em>"@,
        TokenView::Char(c) => seq![c],
        TokenView::Br => Seq::empty(),
    }
}

/// The rendering of the tokens from position `i` on, given whether a
/// paragraph is open. A `Char` opens a paragraph if none is open and
/// continues it otherwise; a `Br` closes an open paragraph and ends the
/// line, or renders as a bare line break; any other token first closes an
/// open paragraph, then renders its own HTML. A paragraph still open at the
/// end of the document is closed.
pub open spec fn render_from(toks: Seq<TokenView>, i: int, open: bool) -> Seq<char>
    decreases toks.len() - i,
{
    if i < 0 || i >= toks.len() {
        if open {
            "</p>"@
        } else {
            Seq::empty()
        }
    } else {
        match toks[i] {
            TokenView::Char(c) => (
            if open {
                seq![c]
            } else {
                "<p>"@ + seq![c]
            }) + render_from(toks, i + 1, true),
            TokenView::Br => (
            if open {
                "</p>\n"@
            } else {
                "\n"@
            }) + render_from(toks, i + 1, false),
            _ => (
            if open {
                "</p>"@
            } else {
                Seq::empty()
            }) + html_of(toks[i], i == 0) + render_from(toks, i + 1, false),
        }
    }
}

/// The HTML fragment of a whole token sequence.
pub open spec fn render_spec(toks: Seq<TokenView>) -> Seq<char> {
    render_from(toks, 0, false)
}

/// A sequence of literal `Char` tokens, rendered inside an open paragraph,
/// contributes its characters followed by the closing paragraph tag.
proof fn lemma_render_char_run(t: Seq<char>, i: int)
    requires
        0 <= i < t.len(),
    ensures
        render_from(char_toks(t), i, true) == t.skip(i) + "</p>"@,
    decreases t.len() - i,
{
    let ct = char_toks(t);
    assert(ct[i] == TokenView::Char(t[i]));
    if i + 1 < t.len() {
        lemma_render_char_run(t, i + 1);
        assert(render_from(ct, i, true) =~= t.skip(i) + "</p>"@);
    } else {
        assert(render_from(ct, i + 1, true) == "</p>"@);
        assert(render_from(ct, i, true) =~= t.skip(i) + "</p>"@);
    }
}

/// Scanning and rendering a nonempty text that contains none of the
/// scanner's markup characters yields exactly that text wrapped in a single
/// paragraph.
pub proof fn lemma_plain_text_paragraph(s: Seq<char>)
    requires
        s.len() > 0,
        forall|j: int| 0 <= j < s.len() ==> plain_char(s[j]),
    ensures
        render_spec(scan_spec(s)) == "<p>"@ + s + "</p>"@,
{
    lemma_scan_plain_text(s, 0);
    assert(s.skip(0) =~= s);
    let ct = char_toks(s);
    assert(ct[0] == TokenView::Char(s[0]));
    if s.len() == 1 {
        assert(render_from(ct, 1, true) == "</p>"@);
        assert(render_spec(ct) =~= "<p>"@ + s + "</p>"@);
    } else {
        lemma_render_char_run(s, 1);
        assert(render_spec(ct) =~= "<p>"@ + s + "</p>"@);
    }
}

/// The anchor id of a heading title, as a string.
fn slug_of(title: &str) -> (r: String)
    ensures
        r@ == slug(title@),
{
    let dashed_title = crate::text::dash_spaces(title);
    crate::text::lowercase(dashed_title.as_str())
}

/// Renders a token sequence to an HTML fragment, exactly as
/// [`render_spec`] says. Total: every token sequence renders.
#[verifier::rlimit(100)]
pub fn parse_tokens(toks: Vec<Token>) -> (content: String)
    ensures
        content@ == render_spec(token_views(toks@)),
{
    let ghost tv = token_views(toks@);
    let mut content = String::new();
    let mut open = false;
    let mut i: usize = 0;
    proof {
        assert(Seq::<char>::empty() + render_from(tv, 0, false) =~= render_from(tv, 0, false));
    }
    while i < toks.len()
        invariant
            i <= toks.len(),
            tv == token_views(toks@),
            tv.len() == toks@.len(),
            content@ + render_from(tv, i as int, open) == render_spec(tv),
        decreases toks.len() - i,
    {
        let ghost cpre = content@;
        let ghost openpre = open;
        proof {
            assert(tv[i as int] == toks@[i as int].toktype@);
        }
        let t = &toks[i];
        match &t.toktype {
            TokenType::Char(c) => {
                if !open {
                    content.append("<p>");
                    open = true;
                }
                push_char(&mut content, *c);
            },
            TokenType::Br => {
                if open {
                    content.append("</p>\n");
                    open = false;
                } else {
                    content.append("\n");
                }
            },
            TokenType::H1(title) => {
                if open {
                    content.append("</p>");
                    open = false;
                }
                if i == 0 {
                    content.append("<h1>");
                    content.append(title.as_str());
                    content.append("</h1>");
                } else {
                    let id = slug_of(title.as_str());
                    content.append("<h1 id=\"");
                    content.append(id.as_str());
                    content.append("\">");
                    content.append(title.as_str());
                    content.append("</h1>");
                }
            },
            TokenType::H2(title) => {
                if open {
                    content.append("</p>");
                    open = false;
                }
                if i == 0 {
                    content.append("<h2>");
                    content.append(title.as_str());
                    content.append("</h2>");
                } else {
                    let id = slug_of(title.as_str());
                    content.append("<h2 id=\"");
                    content.append(id.as_str());
                    content.append("\">");
                    content.append(title.as_str());
                    content.append("</h2>");
                }
            },
            TokenType::H3(title) => {
                if open {
                    content.append("</p>");
                    open = false;
                }
                if i == 0 {
                    content.append("<h3>");
                    content.append(title.as_str());
                    content.append("</h3>");
                } else {
                    let id = slug_of(title.as_str());
                    content.append("<h3 id=\"");
                    content.append(id.as_str());
                    content.append("\">");
                    content.append(title.as_str());
                    content.append("</h3>");
                }
            },
            TokenType::Hr => {
                if open {
                    content.append("</p>");
                    open = false;
                }
                content.append("<hr>");
            },
            TokenType::Img(alt, url) => {
                if open {
                    content.append("</p>");
                    open = false;
                }
                content.append("<img src=\"");
                content.append(url.as_str());
                content.append("\" alt=\"");
                content.append(alt.as_str());
                content.append("\"/>");
            },
            TokenType::Link(alt, url) => {
                if open {
                    content.append("</p>");
                    open = false;
                }
                content.append("<a href=\"");
                content.append(url.as_str());
                content.append("\">");
                content.append(alt.as_str());
                content.append("</a>");
            },
            TokenType::Code(code) => {
                if open {
                    content.append("</p>");
                    open = false;
                }
                content.append("<code>");
                content.append(code.as_str());
                content.append("</code>");
            },
            TokenType::Pre(code) => {
                if open {
                    content.append("</p>");
                    open = false;
                }
                content.append("<pre>");
                content.append(code.as_str());
                content.append("</pre>");
            },
            TokenType::Bold(text) => {
                if open {
                    content.append("</p>");
                    open = false;
                }
                content.append("<b>");
                content.append(text.as_str());
                content.append("</b>");
            },
            TokenType::Em(text) => {
                if open {
                    content.append("</p>");
                    open = false;
                }
                content.append("<em>");
                content.append(text.as_str());
                content.append("</em>");
            },
        }
        proof {
            assert(cpre + render_from(tv, i as int, openpre) =~= content@ + render_from(
                tv,
                i + 1 as int,
                open,
            ));
        }
        i = i + 1;
    }
    if open {
        content.append("</p>");
    }
    proof {
        assert(content@ =~= render_spec(tv));
    }
    content
}

} // verus!
