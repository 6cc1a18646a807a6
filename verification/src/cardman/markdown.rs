//! Markdown rendering: GitHub-Flavored Markdown to HTML, with tables, task
//! lists and strikethrough, by `pulldown-cmark`.
use vstd::prelude::*;

verus! {

/// The HTML that `pulldown-cmark` renders for `md` with tables, task lists
/// and strikethrough enabled.
pub uninterp spec fn gfm_html(md: Seq<char>) -> Seq<char>;

/// Renders `md` with `pulldown_cmark::Parser::new_ext` (options
/// `ENABLE_TABLES | ENABLE_TASKLISTS | ENABLE_STRIKETHROUGH`) and
/// `pulldown_cmark::html::push_html` into an empty string. The result is a
/// function of `md` alone, named [`gfm_html`]; nothing more of it is stated.
#[verifier::external_body]
fn render_gfm(md: &str) -> (html: String)
    ensures
        html@ == gfm_html(md@),
{
    let opts = pulldown_cmark::Options::ENABLE_TABLES | pulldown_cmark::Options::ENABLE_TASKLISTS
        | pulldown_cmark::Options::ENABLE_STRIKETHROUGH;
    let parser = pulldown_cmark::Parser::new_ext(md, opts);
    let mut html_output = String::new();
    pulldown_cmark::html::push_html(&mut html_output, parser);
    html_output
}

/// Render GitHub-Flavored Markdown into HTML.
///
/// Enables tables, task lists, and strikethrough extensions.
pub fn markdown_to_html(md: &str) -> (html: String)
    ensures
        html@ == gfm_html(md@),
{
    render_gfm(md)
}

} // verus!
