//! Markdown to HTML, rendered by pulldown-cmark.
use vstd::prelude::*;

verus! {

/// The HTML that pulldown-cmark renders for a markdown text with default
/// options. It depends on the text alone.
pub uninterp spec fn html_of(markdown: Seq<char>) -> Seq<char>;

/// Relies on `pulldown_cmark::html::push_html`, fed by
/// `pulldown_cmark::Parser::new`: it appends the HTML rendering of the
/// parsed text to the string, here an empty one.
#[verifier::external_body]
fn render_html(markdown: &str) -> (r: String)
    ensures
        r@ == html_of(markdown@),
{
    let parser = pulldown_cmark::Parser::new(markdown);
    let mut out = String::new();
    pulldown_cmark::html::push_html(&mut out, parser);
    out
}

/// Renders a markdown text as HTML.
pub fn md_to_html(markdown: &str) -> (r: String)
    ensures
        r@ == html_of(markdown@),
{
    render_html(markdown)
}

} // verus!
