//! HTML queries, done by the `scraper` crate, and regular-expression searches, done by the
//! `regex` crate; both handed back as plain strings.
use vstd::prelude::*;
use crate::text::{opt_view, views};

verus! {

/// An element picked out by a CSS selector: the value of the attribute asked for, if the
/// element has it, and its descendant text nodes in document order.
pub struct ScrapedElement {
    pub attr: Option<String>,
    pub text: Vec<String>,
}

/// The plain content of a scraped element.
pub type ElementView = (Option<Seq<char>>, Seq<Seq<char>>);

/// The plain content of a scraped element.
pub open spec fn element_view(e: ScrapedElement) -> ElementView {
    (opt_view(e.attr), views(e.text@))
}

/// The plain content of a list of scraped elements, if there is one.
pub open spec fn elements_view(r: Option<Vec<ScrapedElement>>) -> Option<Seq<ElementView>> {
    match r {
        Some(v) => Some(v@.map_values(|e: ScrapedElement| element_view(e))),
        None => None,
    }
}

/// The plain content of one row of cells, each a list of text pieces.
pub open spec fn row_view(row: Vec<Vec<String>>) -> Seq<Seq<Seq<char>>> {
    row@.map_values(|cell: Vec<String>| views(cell@))
}

/// The plain content of rows of cells.
pub open spec fn rows_view(rows: Seq<Vec<Vec<String>>>) -> Seq<Seq<Seq<Seq<char>>>> {
    rows.map_values(|row: Vec<Vec<String>>| row_view(row))
}

/// The plain content of nested text lists, if there are any.
pub open spec fn nested_view(r: Option<Vec<Vec<Vec<String>>>>) -> Option<Seq<Seq<Seq<Seq<char>>>>> {
    match r {
        Some(v) => Some(rows_view(v@)),
        None => None,
    }
}

/// What `scraper` finds in the document `html` for `selector`, reading attribute `attr`
/// and the text of each element; `None` when the selector does not parse.
pub uninterp spec fn selected_elements(html: Seq<char>, selector: Seq<char>, attr: Seq<char>) -> Option<Seq<ElementView>>;

/// What `scraper` finds in the document `html`: for each element matching `outer`, the text
/// nodes of each of its descendants matching `inner`; `None` when a selector does not parse.
pub uninterp spec fn selected_nested_texts(html: Seq<char>, outer: Seq<char>, inner: Seq<char>) -> Option<Seq<Seq<Seq<Seq<char>>>>>;

/// What `regex` finds for `pattern` in `haystack` with `Regex::find_iter`: the successive
/// non-overlapping matches; `None` when the pattern does not compile.
pub uninterp spec fn regex_matches(pattern: Seq<char>, haystack: Seq<char>) -> Option<Seq<Seq<char>>>;

/// What `Regex::is_match` answers for `pattern` and `haystack`; `None` when the pattern does
/// not compile.
pub uninterp spec fn regex_is_match(pattern: Seq<char>, haystack: Seq<char>) -> Option<bool>;

/// Calls `Html::parse_document`, `Selector::parse` and `Html::select`, and reads each
/// element's attribute (`ElementRef::attr`) and text nodes (`ElementRef::text`).
/// The result is named, not stated.
#[verifier::external_body]
pub(crate) fn select_elements(html: &str, selector: &str, attr: &str) -> (r: Option<Vec<ScrapedElement>>)
    ensures
        elements_view(r) == selected_elements(html@, selector@, attr@),
{
    let document = scraper::Html::parse_document(html);
    let sel = scraper::Selector::parse(selector).ok()?;
    Some(document.select(&sel).map(|el| ScrapedElement {
        attr: el.attr(attr).map(|a| a.to_string()),
        text: el.text().map(|t| t.to_string()).collect(),
    }).collect())
}

/// Calls `Html::parse_document`, `Selector::parse` (twice), `Html::select` and
/// `ElementRef::select`, and reads the text nodes of each inner element.
/// The result is named, not stated.
#[verifier::external_body]
pub(crate) fn select_nested_texts(html: &str, outer: &str, inner: &str) -> (r: Option<Vec<Vec<Vec<String>>>>)
    ensures
        nested_view(r) == selected_nested_texts(html@, outer@, inner@),
{
    let document = scraper::Html::parse_document(html);
    let outer_sel = scraper::Selector::parse(outer).ok()?;
    let inner_sel = scraper::Selector::parse(inner).ok()?;
    Some(document.select(&outer_sel).map(|row| {
        row.select(&inner_sel).map(|c| c.text().map(|t| t.to_string()).collect()).collect()
    }).collect())
}

/// Calls `Regex::new` and `Regex::find_iter`, collecting the matched text.
/// The result is named, not stated.
#[verifier::external_body]
pub(crate) fn find_matches(pattern: &str, haystack: &str) -> (r: Option<Vec<String>>)
    ensures
        match r {
            Some(v) => regex_matches(pattern@, haystack@) == Some(views(v@)),
            None => regex_matches(pattern@, haystack@) is None,
        },
{
    let re = regex::Regex::new(pattern).ok()?;
    Some(re.find_iter(haystack).map(|m| m.as_str().to_string()).collect())
}

/// Calls `Regex::new` and `Regex::is_match`. The result is named, not stated.
#[verifier::external_body]
pub(crate) fn is_match(pattern: &str, haystack: &str) -> (r: Option<bool>)
    ensures
        r == regex_is_match(pattern@, haystack@),
{
    let re = regex::Regex::new(pattern).ok()?;
    Some(re.is_match(haystack))
}

} // verus!
