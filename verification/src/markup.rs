//! Queries on HTML pages, answered by the `scraper` crate.
//!
//! A page and a CSS selector go in as text; what the selected elements hold
//! comes out as text. Nothing here is proved: each function states what
//! `scraper` is taken to compute, by a name that stands for its answer.

use vstd::prelude::*;

verus! {

/// The inner HTML of every element of the page `html` that `selector`
/// matches, in document order; `None` where `scraper` does not accept
/// `selector`.
pub uninterp spec fn selected_inner_html(html: Seq<char>, selector: Seq<char>) -> Option<
    Seq<Seq<char>>,
>;

/// For every element of the page `html` that `selector` matches, in document
/// order, the text nodes below it; `None` where `scraper` does not accept
/// `selector`.
pub uninterp spec fn selected_text(html: Seq<char>, selector: Seq<char>) -> Option<
    Seq<Seq<Seq<char>>>,
>;

/// For every element of the page `html` that `selector` matches, in document
/// order, the value of its attribute `attr`, if it has one; `None` where
/// `scraper` does not accept `selector`.
pub uninterp spec fn selected_attr(html: Seq<char>, selector: Seq<char>, attr: Seq<char>) -> Option<
    Seq<Option<Seq<char>>>,
>;

/// For every element of the page `html` that `outer` matches, in document
/// order, the value of attribute `attr` of each of its descendants that
/// `inner` matches; `None` where `scraper` does not accept one of the two
/// selectors.
pub uninterp spec fn nested_attr(
    html: Seq<char>,
    outer: Seq<char>,
    inner: Seq<char>,
    attr: Seq<char>,
) -> Option<Seq<Seq<Option<Seq<char>>>>>;

/// Parses `html` with `scraper::Html::parse_document` and `selector` with
/// `scraper::Selector::parse`, walks `Html::select` and copies out each
/// element's `ElementRef::inner_html`. Named by [`selected_inner_html`].
#[verifier::external_body]
pub(crate) fn select_inner_html(html: &str, selector: &str) -> (r: Option<Vec<String>>)
    ensures
        r.deep_view() == selected_inner_html(html@, selector@),
{
    match scraper::Selector::parse(selector) {
        Ok(sel) => {
            let doc = scraper::Html::parse_document(html);
            Some(doc.select(&sel).map(|e| e.inner_html()).collect())
        },
        Err(_) => None,
    }
}

/// Parses `html` with `scraper::Html::parse_document` and `selector` with
/// `scraper::Selector::parse`, walks `Html::select` and copies out what each
/// element's `ElementRef::text` yields. Named by [`selected_text`].
#[verifier::external_body]
pub(crate) fn select_text(html: &str, selector: &str) -> (r: Option<Vec<Vec<String>>>)
    ensures
        r.deep_view() == selected_text(html@, selector@),
{
    match scraper::Selector::parse(selector) {
        Ok(sel) => {
            let doc = scraper::Html::parse_document(html);
            Some(doc.select(&sel).map(|e| e.text().map(String::from).collect()).collect())
        },
        Err(_) => None,
    }
}

/// Parses `html` with `scraper::Html::parse_document` and `selector` with
/// `scraper::Selector::parse`, walks `Html::select` and copies out what
/// `Element::attr(attr)` gives for each element. Named by [`selected_attr`].
#[verifier::external_body]
pub(crate) fn select_attr(html: &str, selector: &str, attr: &str) -> (r: Option<
    Vec<Option<String>>,
>)
    ensures
        r.deep_view() == selected_attr(html@, selector@, attr@),
{
    match scraper::Selector::parse(selector) {
        Ok(sel) => {
            let doc = scraper::Html::parse_document(html);
            Some(doc.select(&sel).map(|e| e.value().attr(attr).map(String::from)).collect())
        },
        Err(_) => None,
    }
}

/// Parses `html` with `scraper::Html::parse_document` and both selectors with
/// `scraper::Selector::parse`; for each element of `Html::select(outer)` it
/// walks `ElementRef::select(inner)` and copies out what `Element::attr(attr)`
/// gives. Named by [`nested_attr`].
#[verifier::external_body]
pub(crate) fn select_nested_attr(html: &str, outer: &str, inner: &str, attr: &str) -> (r: Option<
    Vec<Vec<Option<String>>>,
>)
    ensures
        r.deep_view() == nested_attr(html@, outer@, inner@, attr@),
{
    match (scraper::Selector::parse(outer), scraper::Selector::parse(inner)) {
        (Ok(o), Ok(i)) => {
            let doc = scraper::Html::parse_document(html);
            let attrs = |e: scraper::ElementRef| e.value().attr(attr).map(String::from);
            Some(doc.select(&o).map(|e| e.select(&i).map(attrs).collect()).collect())
        },
        _ => None,
    }
}

} // verus!
