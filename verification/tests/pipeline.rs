//! End-to-end tests of the scan/render pipeline on whole documents.

use marsdown::parser::parse_tokens;
use marsdown::render_markdown;
use marsdown::scanner::Scanner;
use marsdown::tokens::TokenType;

fn scan_and_render(src: &str) -> String {
    let mut scanner = Scanner::new(src.to_string());
    scanner.scan_tokens();
    parse_tokens(scanner.tokens)
}

fn scan_types(src: &str) -> Vec<TokenType> {
    let mut scanner = Scanner::new(src.to_string());
    scanner.scan_tokens();
    scanner.tokens.into_iter().map(|t| t.toktype).collect()
}

#[test]
fn parsedprinting() {
    let src =
        "# WorkingTitle\n## WorkingH2\n### WorkingH3\n#Test\n##Test2\n###Test3 #notworking\n```echo Hello,World!\ngit clone https://github.com/Wafelack/Ark.vim ~/.vim/bundle/Ark```\nThis is a **bold** paragraph with *emphasis* and ~~striked~~ text\n`echo Test`---\n[my website](https://wafelack.fr)![alt](link) This is some text\ntest"
            .to_string();
    let mut scanner = Scanner::new(src.clone());
    scanner.scan_tokens();
    let parsed = parse_tokens(scanner.tokens);
    println!("Base string : {:?}\n", src);
    println!("Parsed string : {}", parsed)
}

#[test]
fn plain_text_is_one_paragraph() {
    assert_eq!(scan_and_render("hello world"), "<p>hello world</p>");
}

#[test]
fn plain_text_with_parens_and_bracket() {
    assert_eq!(scan_and_render("a (b) c]"), "<p>a (b) c]</p>");
}

#[test]
fn empty_input_renders_empty() {
    assert_eq!(scan_types(""), vec![]);
    assert_eq!(scan_and_render(""), "");
}

#[test]
fn first_heading_has_no_id() {
    assert_eq!(
        scan_types("# Title\n"),
        vec![TokenType::H1("Title".to_string()), TokenType::Br]
    );
    assert_eq!(scan_and_render("# Title\n"), "<h1>Title</h1>\n");
}

#[test]
fn later_heading_gets_slug_id() {
    assert_eq!(
        scan_and_render("x\n# My Title\n"),
        "<p>x</p>\n<h1 id=\"my-title\">My Title</h1>\n"
    );
}

#[test]
fn heading_levels_and_marker_forms() {
    assert_eq!(scan_and_render("## Two\n"), "<h2>Two</h2>\n");
    assert_eq!(scan_and_render("### Three\n"), "<h3>Three</h3>\n");
    assert_eq!(scan_and_render("#One\n"), "<h1>One</h1>\n");
    // four or more marker characters collapse to a level-three heading
    assert_eq!(scan_and_render("####Zed\n"), "<h3>Zed</h3>\n");
    // a heading line may end at end of input
    assert_eq!(scan_and_render("# Tail"), "<h1>Tail</h1>\n");
}

#[test]
fn empty_heading_titles() {
    assert_eq!(scan_and_render("#"), "<h1></h1>\n");
    assert_eq!(scan_and_render("# "), "<h1></h1>\n");
    assert_eq!(scan_and_render("#\nx"), "<h1></h1>\n<p>x</p>");
}

#[test]
fn heading_marker_only_at_column_zero() {
    assert_eq!(scan_and_render("x#y"), "<p>x#y</p>");
    assert_eq!(
        scan_and_render("# A\n## B\n"),
        "<h1>A</h1>\n<h2 id=\"b\">B</h2>\n"
    );
}

#[test]
fn image_token_and_rendering() {
    assert_eq!(
        scan_types("![alt](link)"),
        vec![TokenType::Img("alt".to_string(), "link".to_string())]
    );
    assert_eq!(
        scan_and_render("![alt](link)"),
        "<img src=\"link\" alt=\"alt\"/>"
    );
}

#[test]
fn link_rendering() {
    assert_eq!(scan_and_render("[t](u)"), "<a href=\"u\">t</a>");
}

#[test]
fn link_degrades_without_url() {
    assert_eq!(scan_and_render("[alt]x"), "<p>[alt]x</p>");
    assert_eq!(scan_and_render("![alt]x"), "<p>![alt]x</p>");
}

#[test]
fn link_degrades_at_end_of_input() {
    assert_eq!(scan_and_render("[ab"), "<p>[ab</p>");
    assert_eq!(scan_and_render("![a](b"), "<p>![a](b</p>");
    assert_eq!(scan_and_render("!x"), "<p>!x</p>");
}

#[test]
fn horizontal_rule() {
    assert_eq!(
        scan_types("---\n"),
        vec![TokenType::Hr, TokenType::Br]
    );
    assert_eq!(scan_and_render("---\n"), "<hr>\n");
}

#[test]
fn short_dash_runs_stay_literal() {
    assert_eq!(scan_and_render("-"), "<p>-</p>");
    assert_eq!(scan_and_render("--"), "<p>--</p>");
    assert_eq!(scan_and_render("----"), "<hr><p>-</p>");
}

#[test]
fn code_span_escapes_angle_brackets() {
    let toks = scan_types("`<script>`");
    assert_eq!(toks, vec![TokenType::Code("&lt;script&gt;".to_string())]);
    let out = scan_and_render("`<script>`");
    assert_eq!(out, "<code>&lt;script&gt;</code>");
    assert!(!out.contains("<script>"));
}

#[test]
fn pre_span_escapes_angle_brackets() {
    assert_eq!(scan_and_render("^a<b^"), "<pre>a&lt;b</pre>");
}

#[test]
fn bold_and_emphasis() {
    assert_eq!(scan_and_render("**bold**"), "<b>bold</b>");
    assert_eq!(scan_and_render("****"), "<b></b>");
    assert_eq!(scan_and_render("*it*x"), "<em>it</em><p>x</p>");
}

#[test]
fn unterminated_emphasis_is_bounded() {
    assert_eq!(scan_types("*oops"), vec![TokenType::Em("oops".to_string())]);
    assert_eq!(scan_and_render("*oops"), "<em>oops</em>");
}

#[test]
fn bold_degrades_on_single_closing_star() {
    assert_eq!(scan_and_render("**b*c"), "<p>**b*c</p>");
    assert_eq!(scan_and_render("**b"), "<p>**b</p>");
}

#[test]
fn unterminated_code_is_bounded() {
    assert_eq!(scan_and_render("`tail"), "<code>tail</code>");
    assert_eq!(scan_and_render("^tail"), "<pre>tail</pre>");
}

#[test]
fn bare_newlines_render_as_line_breaks() {
    assert_eq!(scan_and_render("\n\n"), "\n\n");
    assert_eq!(scan_and_render("a\nb"), "<p>a</p>\n<p>b</p>");
}

#[test]
fn render_markdown_composes_scanner_and_renderer() {
    let src = "# Top\nSome *text* with a [link](url).\n---\n";
    assert_eq!(render_markdown(src.to_string()), scan_and_render(src));
    assert_eq!(
        render_markdown("# Title\n".to_string()),
        "<h1>Title</h1>\n"
    );
}

#[test]
fn whole_pipeline_never_panics_on_malformed_input() {
    let cases = [
        "*", "**", "`", "^", "[", "![", "!", "#", "# ", "-", "--", "---",
        "[a](", "[a]", "**a*", "*a", "# \n#\n", "\n", "][)(",
    ];
    for case in cases.iter() {
        let _ = scan_and_render(case);
    }
}
