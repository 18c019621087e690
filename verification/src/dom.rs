use vstd::prelude::*;

verus! {

/// Whether `scraper::Selector::parse` accepts `sel` as a CSS selector.
/// Parsing depends on the selector text alone.
pub uninterp spec fn selector_ok(sel: Seq<char>) -> bool;

/// The serialized subtrees (outer HTML) of the elements matching `sel` when
/// `html` is parsed as a whole document, in document order.
pub uninterp spec fn doc_subtrees(html: Seq<char>, sel: Seq<char>) -> Seq<Seq<char>>;

/// For each element matching `sel` when `frag` is parsed as a fragment, in
/// document order: its descendant text nodes, in document order.
pub uninterp spec fn frag_texts(frag: Seq<char>, sel: Seq<char>) -> Seq<Seq<Seq<char>>>;

/// For each element matching `sel` when `frag` is parsed as a fragment, in
/// document order: the value of its attribute `attr`, if present.
pub uninterp spec fn frag_attrs(frag: Seq<char>, sel: Seq<char>, attr: Seq<char>) -> Seq<
    Option<Seq<char>>,
>;

/// For each element matching `outer` when `frag` is parsed as a fragment, in
/// document order: for each of its descendant elements matching `inner`, in
/// document order: that descendant's text nodes, in document order.
pub uninterp spec fn nested_texts(frag: Seq<char>, outer: Seq<char>, inner: Seq<char>) -> Seq<
    Seq<Seq<Seq<char>>>,
>;

/// Relies on `scraper::Selector::parse`: it accepts or rejects a selector
/// string by its syntax alone.
#[verifier::external_body]
pub fn selector_is_valid(sel: &str) -> (r: bool)
    ensures
        r == selector_ok(sel@),
{
    scraper::Selector::parse(sel).is_ok()
}

/// Relies on `scraper::Html::parse_document`, `Html::select` and
/// `ElementRef::html`: parsing and matching are deterministic functions of the
/// input text, `select` yields matches in document order, and `html`
/// serializes the matched element's subtree.
#[verifier::external_body]
pub fn select_in_document(html: &str, sel: &str) -> (r: Vec<String>)
    requires
        selector_ok(sel@),
    ensures
        r.deep_view() == doc_subtrees(html@, sel@),
{
    let document = scraper::Html::parse_document(html);
    let selector = scraper::Selector::parse(sel).unwrap();
    document.select(&selector).map(|e| e.html()).collect()
}

/// Relies on `scraper::Html::parse_fragment`, `Html::select` and
/// `ElementRef::text`: matches come in document order and `text` yields the
/// element's descendant text nodes in document order.
#[verifier::external_body]
pub fn texts_in_fragment(frag: &str, sel: &str) -> (r: Vec<Vec<String>>)
    requires
        selector_ok(sel@),
    ensures
        r.deep_view() == frag_texts(frag@, sel@),
{
    let document = scraper::Html::parse_fragment(frag);
    let selector = scraper::Selector::parse(sel).unwrap();
    document.select(&selector).map(|e| e.text().map(|t| t.to_string()).collect()).collect()
}

/// Relies on `scraper::Html::parse_fragment`, `Html::select` and
/// `ElementRef::attr`: matches come in document order and `attr` returns the
/// value of the named attribute when the element carries it.
#[verifier::external_body]
pub fn attrs_in_fragment(frag: &str, sel: &str, attr: &str) -> (r: Vec<Option<String>>)
    requires
        selector_ok(sel@),
    ensures
        r.deep_view() == frag_attrs(frag@, sel@, attr@),
{
    let document = scraper::Html::parse_fragment(frag);
    let selector = scraper::Selector::parse(sel).unwrap();
    document.select(&selector).map(|e| e.attr(attr).map(|v| v.to_string())).collect()
}

/// Relies on `scraper::Html::parse_fragment`, `Html::select`,
/// `ElementRef::select` and `ElementRef::text`: both selects yield matches in
/// document order, and `ElementRef::select` searches only the element's
/// descendants.
#[verifier::external_body]
pub fn nested_texts_in_fragment(frag: &str, outer: &str, inner: &str) -> (r: Vec<Vec<Vec<String>>>)
    requires
        selector_ok(outer@),
        selector_ok(inner@),
    ensures
        r.deep_view() == nested_texts(frag@, outer@, inner@),
{
    let document = scraper::Html::parse_fragment(frag);
    let sel_outer = scraper::Selector::parse(outer).unwrap();
    let sel_inner = scraper::Selector::parse(inner).unwrap();
    document.select(&sel_outer).map(
        |o| o.select(&sel_inner).map(|e| e.text().map(|t| t.to_string()).collect()).collect(),
    ).collect()
}

} // verus!
