//! Trusted access to the scraper crate: CSS selectors applied to HTML
//! text, reduced to plain string values the verified parsers work on.

use crate::text::{views2_of, views_of};
use vstd::prelude::*;

verus! {

/// A parsed CSS selector of the scraper crate; opaque here.
#[verifier::external_type_specification]
#[verifier::external_body]
pub struct ExSelector(scraper::Selector);

/// Whether scraper's selector grammar accepts the text.
pub uninterp spec fn selector_ok(s: Seq<char>) -> bool;

/// The selector text a parsed selector was built from.
pub uninterp spec fn selector_src(sel: scraper::Selector) -> Seq<char>;

/// Relies on scraper::Selector::parse: a selector parses exactly when its
/// text is acceptable to the selector grammar, and the parsed value stands
/// for that text.
#[verifier::external_body]
pub fn selector_parse(s: &str) -> (r: Option<scraper::Selector>)
    ensures
        r is Some <==> selector_ok(s@),
        r matches Some(sel) ==> selector_src(sel) == s@,
{
    match scraper::Selector::parse(s) {
        Ok(sel) => Some(sel),
        Err(_) => None,
    }
}

/// The text parts of each element the selector matches in the text parsed
/// as a full HTML document: one list of text nodes per match, in document
/// order.  A function of the document text and the selector alone.
pub uninterp spec fn doc_texts(html: Seq<char>, selector: Seq<char>) -> Seq<Seq<Seq<char>>>;

/// Relies on scraper::Html::parse_document, Html::select and
/// ElementRef::text: the text parts of each match, in document order.
#[verifier::external_body]
pub fn doc_select_texts(html: &str, sel: &scraper::Selector) -> (r: Vec<Vec<String>>)
    ensures
        views2_of(r@) == doc_texts(html@, selector_src(*sel)),
{
    let doc = scraper::Html::parse_document(html);
    doc.select(sel).map(|e| e.text().map(|t| t.to_string()).collect()).collect()
}

/// As [`doc_texts`], but for the text parsed as an HTML fragment.
pub uninterp spec fn frag_texts(html: Seq<char>, selector: Seq<char>) -> Seq<Seq<Seq<char>>>;

/// Relies on scraper::Html::parse_fragment, Html::select and
/// ElementRef::text: the text parts of each match, in document order.
#[verifier::external_body]
pub fn frag_select_texts(html: &str, sel: &scraper::Selector) -> (r: Vec<Vec<String>>)
    ensures
        views2_of(r@) == frag_texts(html@, selector_src(*sel)),
{
    let doc = scraper::Html::parse_fragment(html);
    doc.select(sel).map(|e| e.text().map(|t| t.to_string()).collect()).collect()
}

/// The serialized HTML of each element the selector matches in the text
/// parsed as a full HTML document, in document order.
pub uninterp spec fn doc_outer_htmls(html: Seq<char>, selector: Seq<char>) -> Seq<Seq<char>>;

/// Relies on scraper::Html::parse_document, Html::select and
/// ElementRef::html: the serialized HTML of each match, in document order.
#[verifier::external_body]
pub fn doc_select_htmls(html: &str, sel: &scraper::Selector) -> (r: Vec<String>)
    ensures
        views_of(r@) == doc_outer_htmls(html@, selector_src(*sel)),
{
    let doc = scraper::Html::parse_document(html);
    doc.select(sel).map(|e| e.html()).collect()
}

/// As [`doc_outer_htmls`], but for the text parsed as an HTML fragment.
pub uninterp spec fn frag_outer_htmls(html: Seq<char>, selector: Seq<char>) -> Seq<Seq<char>>;

/// Relies on scraper::Html::parse_fragment, Html::select and
/// ElementRef::html: the serialized HTML of each match, in document order.
#[verifier::external_body]
pub fn frag_select_htmls(html: &str, sel: &scraper::Selector) -> (r: Vec<String>)
    ensures
        views_of(r@) == frag_outer_htmls(html@, selector_src(*sel)),
{
    let doc = scraper::Html::parse_fragment(html);
    doc.select(sel).map(|e| e.html()).collect()
}

} // verus!
