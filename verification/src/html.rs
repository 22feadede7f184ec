//! Trusted boundary to the HTML parser: the library receives whole HTML
//! pages as text and reads only the text content of selected elements,
//! through the `scraper` crate.  Everything downstream of these two calls
//! is verified against the names given to their results here.
use vstd::prelude::*;

verus! {

/// The concatenated text of the first element matching a selector in an
/// HTML document, or nothing when the selector is invalid or no element
/// matches.  The result is a function of the two arguments alone.
pub uninterp spec fn tag_text_of(html: Seq<char>, tag: Seq<char>) -> Option<Seq<char>>;

/// Relies on scraper's `Html::parse_document`, `Selector::parse`,
/// `Html::select` and `ElementRef::text`: parses the document, selects the
/// first element matching `tag`, and concatenates that element's text nodes.
#[verifier::external_body]
pub fn first_tag_text(html: &str, tag: &str) -> (r: Option<String>)
    ensures
        (match r {
            Some(s) => tag_text_of(html@, tag@) == Some(s@),
            None => tag_text_of(html@, tag@) is None,
        }),
{
    let document = scraper::Html::parse_document(html);
    let selector = match scraper::Selector::parse(tag) {
        Ok(sel) => sel,
        Err(_) => {
            return None;
        },
    };
    let element = document.select(&selector).next()?;
    Some(element.text().collect::<String>())
}

} // verus!
