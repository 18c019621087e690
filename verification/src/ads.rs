use vstd::prelude::*;
use vstd::string::StrSliceExecFns;
use vstd::string::StringExecFns;
use rayon::iter::IntoParallelRefIterator;
use rayon::iter::ParallelIterator;
use rayon::iter::IndexedParallelIterator;
use crate::dom::{
    attrs_in_fragment, doc_subtrees, frag_attrs, frag_texts, select_in_document, selector_is_valid,
    selector_ok, texts_in_fragment,
};
use crate::text::{
    join_spec, join_strings, remove_all, remove_all_spec, starts_with_spec, str_starts_with,
    trim_spec, trim_str,
};

verus! {

/// One shopping offer row: four extracted values and a derived tag, `Online`
/// when a shipping-inclusive price was found and `Local` otherwise.
pub struct AdRow {
    pub seller_name: String,
    pub offer_price: String,
    pub total_price: String,
    pub link: String,
    pub ad_type: String,
}

/// The mathematical content of an `AdRow`.
#[verifier::ext_equal]
pub struct AdRowV {
    pub seller_name: Seq<char>,
    pub offer_price: Seq<char>,
    pub total_price: Seq<char>,
    pub link: Seq<char>,
    pub ad_type: Seq<char>,
}

impl DeepView for AdRow {
    type V = AdRowV;

    open spec fn deep_view(&self) -> AdRowV {
        AdRowV {
            seller_name: self.seller_name@,
            offer_price: self.offer_price@,
            total_price: self.total_price@,
            link: self.link@,
            ad_type: self.ad_type@,
        }
    }
}

/// The sentinel container that marks a page as carrying offers at all.
pub open spec fn sentinel_selector() -> Seq<char> {
    "#sh-osd__online-sellers-cont"@
}

/// The rows that carry one offer each.
pub open spec fn offer_row_selector() -> Seq<char> {
    "tr[data-is-grid-offer=\"true\"]"@
}

pub open spec fn seller_selector() -> Seq<char> {
    "a.b5ycib"@
}

pub open spec fn price_selector() -> Seq<char> {
    "span.g9WBQb"@
}

pub open spec fn shipping_selector() -> Seq<char> {
    "div.drzWO"@
}

pub open spec fn link_selector() -> Seq<char> {
    "a.UxuaJe"@
}

pub open spec fn href_attr() -> Seq<char> {
    "href"@
}

/// The accessibility text that seller links carry and that is stripped from
/// the seller name.
pub open spec fn window_text() -> Seq<char> {
    "Opens in a new window"@
}

/// The relative search-redirect prefix that marks a link for rewriting.
pub open spec fn link_prefix() -> Seq<char> {
    "/url?q="@
}

/// The fixed origin prepended to a redirect link.
pub open spec fn link_origin() -> Seq<char> {
    "https://www.google.com"@
}

/// Whether every fixed selector of the offer extractor compiles.
pub open spec fn ad_selectors_ok() -> bool {
    &&& selector_ok(sentinel_selector())
    &&& selector_ok(offer_row_selector())
    &&& selector_ok(seller_selector())
    &&& selector_ok(price_selector())
    &&& selector_ok(shipping_selector())
    &&& selector_ok(link_selector())
}

/// The concatenated text of the first element matching `sel` in the re-rooted
/// row, or the empty string when nothing matches.
pub open spec fn first_text_concat(row: Seq<char>, sel: Seq<char>) -> Seq<char> {
    let l = frag_texts(row, sel);
    if l.len() == 0 {
        Seq::empty()
    } else {
        join_spec(l[0], Seq::empty())
    }
}

/// The seller name of a row: the seller link's text with the accessibility
/// string removed and the ends trimmed.
pub open spec fn seller_spec(row: Seq<char>) -> Seq<char> {
    trim_spec(remove_all_spec(first_text_concat(row, seller_selector()), window_text()))
}

/// The offer price of a row: the price element's text, trimmed.
pub open spec fn price_spec(row: Seq<char>) -> Seq<char> {
    trim_spec(first_text_concat(row, price_selector()))
}

/// The shipping-inclusive price of a row: the shipping element's text,
/// trimmed; empty when the row has none.
pub open spec fn shipping_spec(row: Seq<char>) -> Seq<char> {
    trim_spec(first_text_concat(row, shipping_selector()))
}

/// A hyperlink after the redirect rewrite: a link beginning with the
/// search-redirect prefix gets the fixed origin prepended, any other link
/// passes through unchanged.
pub open spec fn rewrite_link_spec(href: Seq<char>) -> Seq<char> {
    if starts_with_spec(href, link_prefix()) {
        link_origin() + href
    } else {
        href
    }
}

/// The outbound link of a row: the link element's `href`, rewritten when it is
/// a search redirect; empty when the element or the attribute is absent.
pub open spec fn link_spec(row: Seq<char>) -> Seq<char> {
    let l = frag_attrs(row, link_selector(), href_attr());
    if l.len() == 0 {
        Seq::empty()
    } else {
        match l[0] {
            Some(href) => rewrite_link_spec(href),
            None => Seq::empty(),
        }
    }
}

/// The record of one offer row. Every field extraction is total — an absent
/// match gives the empty string — so no row is ever skipped.
pub open spec fn ad_row_spec(row: Seq<char>) -> AdRowV {
    let total = shipping_spec(row);
    AdRowV {
        seller_name: seller_spec(row),
        offer_price: price_spec(row),
        total_price: total,
        link: link_spec(row),
        ad_type: if total.len() == 0 {
            "Local"@
        } else {
            "Online"@
        },
    }
}

/// The offer rows of one document: empty when the sentinel container is
/// absent, else one record per offer row, in document order.
pub open spec fn ad_rows_spec(html: Seq<char>) -> Seq<AdRowV> {
    if !ad_selectors_ok() {
        Seq::empty()
    } else if doc_subtrees(html, sentinel_selector()).len() == 0 {
        Seq::empty()
    } else {
        doc_subtrees(html, offer_row_selector()).map_values(|row: Seq<char>| ad_row_spec(row))
    }
}

/// Extracts the seller name from a re-rooted offer row.
pub fn extract_seller_name(row: &str) -> (r: String)
    requires
        selector_ok(seller_selector()),
    ensures
        r@ == seller_spec(row@),
{
    proof {
        reveal_strlit("Opens in a new window");
        reveal_strlit("");
        assert(""@ =~= Seq::<char>::empty());
    }
    let l = texts_in_fragment(row, "a.b5ycib");
    if l.len() == 0 {
        String::new()
    } else {
        proof {
            assert(l.deep_view()[0] == l@[0].deep_view());
        }
        let joined = join_strings(&l[0], "");
        let cleaned = remove_all(joined.as_str(), "Opens in a new window");
        trim_str(cleaned.as_str())
    }
}

/// Extracts the offer price from a re-rooted offer row.
pub fn extract_price(row: &str) -> (r: String)
    requires
        selector_ok(price_selector()),
    ensures
        r@ == price_spec(row@),
{
    proof {
        reveal_strlit("");
        assert(""@ =~= Seq::<char>::empty());
    }
    let l = texts_in_fragment(row, "span.g9WBQb");
    if l.len() == 0 {
        String::new()
    } else {
        proof {
            assert(l.deep_view()[0] == l@[0].deep_view());
        }
        let joined = join_strings(&l[0], "");
        trim_str(joined.as_str())
    }
}

/// Extracts the shipping-inclusive price from a re-rooted offer row.
pub fn extract_shipping(row: &str) -> (r: String)
    requires
        selector_ok(shipping_selector()),
    ensures
        r@ == shipping_spec(row@),
{
    proof {
        reveal_strlit("");
        assert(""@ =~= Seq::<char>::empty());
    }
    let l = texts_in_fragment(row, "div.drzWO");
    if l.len() == 0 {
        String::new()
    } else {
        proof {
            assert(l.deep_view()[0] == l@[0].deep_view());
        }
        let joined = join_strings(&l[0], "");
        trim_str(joined.as_str())
    }
}

/// Extracts the outbound link from a re-rooted offer row, rewriting a search
/// redirect to an absolute address.
pub fn extract_link(row: &str) -> (r: String)
    requires
        selector_ok(link_selector()),
    ensures
        r@ == link_spec(row@),
{
    let l = attrs_in_fragment(row, "a.UxuaJe", "href");
    if l.len() == 0 {
        String::new()
    } else {
        proof {
            assert(l.deep_view()[0] == l@[0].deep_view());
        }
        match &l[0] {
            Some(href) => {
                if str_starts_with(href.as_str(), "/url?q=") {
                    let base: String = "https://www.google.com".to_owned();
                    base.concat(href.as_str())
                } else {
                    href.clone()
                }
            },
            None => String::new(),
        }
    }
}

/// Builds the record of one re-rooted offer row.
pub fn parse_single_ad(row: &str) -> (r: AdRow)
    requires
        ad_selectors_ok(),
    ensures
        r.deep_view() == ad_row_spec(row@),
{
    let seller_name = extract_seller_name(row);
    let offer_price = extract_price(row);
    let total_price = extract_shipping(row);
    let link = extract_link(row);
    let ad_type: String = if total_price.as_str().is_empty() {
        "Local".to_owned()
    } else {
        "Online".to_owned()
    };
    AdRow { seller_name, offer_price, total_price, link, ad_type }
}

/// Extracts every offer row of one document. A page without the sentinel
/// container yields an empty sequence — a normal outcome, not an error.
pub fn parse_google_page(html: &str) -> (r: Vec<AdRow>)
    ensures
        r.deep_view() == ad_rows_spec(html@),
{
    if !selector_is_valid("#sh-osd__online-sellers-cont") || !selector_is_valid(
        "tr[data-is-grid-offer=\"true\"]",
    ) || !selector_is_valid("a.b5ycib") || !selector_is_valid("span.g9WBQb") || !selector_is_valid(
        "div.drzWO",
    ) || !selector_is_valid("a.UxuaJe") {
        let r: Vec<AdRow> = Vec::new();
        proof {
            assert(r.deep_view() =~= ad_rows_spec(html@));
        }
        return r;
    }
    let sentinels = select_in_document(html, "#sh-osd__online-sellers-cont");
    if sentinels.len() == 0 {
        let r: Vec<AdRow> = Vec::new();
        proof {
            assert(sentinels.deep_view().len() == 0);
            assert(r.deep_view() =~= ad_rows_spec(html@));
        }
        return r;
    }
    let rows = select_in_document(html, "tr[data-is-grid-offer=\"true\"]");
    let ghost rs = doc_subtrees(html@, offer_row_selector());
    let mut r: Vec<AdRow> = Vec::new();
    let mut i: usize = 0;
    while i < rows.len()
        invariant
            0 <= i <= rows.len(),
            ad_selectors_ok(),
            rows.deep_view() == rs,
            rows.len() == rs.len(),
            r.deep_view() =~= rs.map_values(|row: Seq<char>| ad_row_spec(row)).take(i as int),
        decreases rows.len() - i,
    {
        proof {
            assert(rows.deep_view()[i as int] == rows@[i as int]@);
        }
        let ad = parse_single_ad(rows[i].as_str());
        r.push(ad);
        proof {
            assert(rs.map_values(|row: Seq<char>| ad_row_spec(row)).take(i + 1) =~= rs.map_values(
                |row: Seq<char>| ad_row_spec(row),
            ).take(i as int).push(ad_row_spec(rs[i as int])));
        }
        i = i + 1;
    }
    proof {
        assert(sentinels.deep_view().len() > 0);
        assert(rs.map_values(|row: Seq<char>| ad_row_spec(row)).take(rs.len() as int)
            =~= rs.map_values(|row: Seq<char>| ad_row_spec(row)));
    }
    r
}

/// The offer rows of every document of a batch, in input order.
pub open spec fn ad_rows_bulk_spec(pages: Seq<Seq<char>>) -> Seq<Seq<AdRowV>> {
    pages.map_values(|p: Seq<char>| ad_rows_spec(p))
}

/// Relies on rayon's `par_iter`, `ParallelIterator::map` and `collect`: an
/// indexed parallel map collects its results in the order of its input,
/// whatever order the workers finish in. Each page is handled by
/// `parse_google_page`, whose verified postcondition gives each element of the
/// result.
#[verifier::external_body]
fn par_parse_google_pages(pages: &Vec<String>) -> (r: Vec<Vec<AdRow>>)
    ensures
        r.deep_view() == ad_rows_bulk_spec(pages.deep_view()),
{
    pages.par_iter().map(|p| parse_google_page(p)).collect()
}

/// Extracts the offer rows of each page of a batch in parallel, returning the
/// per-page results in input order.
pub fn bulk_parse_google_shopping(html_pages: &Vec<String>) -> (r: Vec<Vec<AdRow>>)
    ensures
        r.deep_view() == ad_rows_bulk_spec(html_pages.deep_view()),
{
    par_parse_google_pages(html_pages)
}

/// The identifier-tagged offer rows of a batch: pages and identifiers paired
/// by position, zipped to the shorter of the two lengths.
pub open spec fn ad_rows_tagged_spec(pages: Seq<Seq<char>>, identifiers: Seq<Seq<char>>) -> Seq<
    (Seq<char>, Seq<AdRowV>),
> {
    let n = vstd::math::min(pages.len() as int, identifiers.len() as int);
    Seq::new(n as nat, |i: int| (identifiers[i], ad_rows_spec(pages[i])))
}

/// Relies on rayon's `par_iter`, `IndexedParallelIterator::zip`,
/// `ParallelIterator::map` and `collect`: `zip` pairs the two inputs by
/// position and stops at the shorter one, and `collect` keeps the input
/// order. Each page is handled by `parse_google_page`, whose verified
/// postcondition gives each element of the result.
#[verifier::external_body]
fn par_parse_tagged(pages: &Vec<String>, identifiers: &Vec<String>) -> (r: Vec<
    (String, Vec<AdRow>),
>)
    ensures
        r.deep_view() == ad_rows_tagged_spec(pages.deep_view(), identifiers.deep_view()),
{
    pages.par_iter().zip(identifiers.par_iter()).map(
        |(html, identifier)| (identifier.clone(), parse_google_page(html)),
    ).collect()
}

/// Whether some pair of `ps` carries the key `k`.
pub open spec fn has_key(ps: Seq<(Seq<char>, Seq<AdRowV>)>, k: Seq<char>) -> bool {
    exists|i: int| 0 <= i < ps.len() && (#[trigger] ps[i]).0 == k
}

/// `ps` with the value of every pair keyed `k` replaced by `v`.
pub open spec fn set_key(
    ps: Seq<(Seq<char>, Seq<AdRowV>)>,
    k: Seq<char>,
    v: Seq<AdRowV>,
) -> Seq<(Seq<char>, Seq<AdRowV>)> {
    ps.map_values(
        |p: (Seq<char>, Seq<AdRowV>)|
            if p.0 == k {
                (p.0, v)
            } else {
                p
            },
    )
}

/// The pair sequence read as a map: one pair per distinct key, keys in order
/// of first appearance, each key carrying the value of its last appearance.
pub open spec fn dedup_last_wins(ps: Seq<(Seq<char>, Seq<AdRowV>)>) -> Seq<
    (Seq<char>, Seq<AdRowV>),
>
    decreases ps.len(),
{
    if ps.len() == 0 {
        Seq::empty()
    } else {
        let front = dedup_last_wins(ps.drop_last());
        let last = ps.last();
        if has_key(front, last.0) {
            set_key(front, last.0, last.1)
        } else {
            front.push(last)
        }
    }
}

/// Whether no two pairs of `ps` carry the same key.
pub open spec fn keys_distinct(ps: Seq<(Seq<char>, Seq<AdRowV>)>) -> bool {
    forall|i: int, j: int|
        0 <= i < j < ps.len() ==> (#[trigger] ps[i]).0 != (#[trigger] ps[j]).0
}

/// On pairs whose keys are already distinct, reading the sequence as a map
/// changes nothing: the identifier-tagged result then pairs identifier `i`
/// with page `i`, zipped to the shorter input.
pub proof fn lemma_dedup_distinct_identity(ps: Seq<(Seq<char>, Seq<AdRowV>)>)
    requires
        keys_distinct(ps),
    ensures
        dedup_last_wins(ps) == ps,
    decreases ps.len(),
{
    if ps.len() > 0 {
        let front = ps.drop_last();
        assert(keys_distinct(front));
        lemma_dedup_distinct_identity(front);
        assert(!has_key(front, ps.last().0));
        assert(front.push(ps.last()) =~= ps);
    }
}

proof fn lemma_dedup_keys_distinct(ps: Seq<(Seq<char>, Seq<AdRowV>)>)
    ensures
        keys_distinct(dedup_last_wins(ps)),
    decreases ps.len(),
{
    if ps.len() > 0 {
        lemma_dedup_keys_distinct(ps.drop_last());
    }
}

/// Extracts the offer rows of each page of a batch in parallel and keys each
/// page's result by the caller's identifier at the same position, as a map:
/// pages and identifiers are zipped to the shorter of their lengths, each
/// distinct identifier appears once, in order of first appearance, and an
/// identifier given several times keeps the rows of the last page paired with
/// it.
pub fn parse_multiple_google_pages(html_pages: &Vec<String>, page_identifiers: &Vec<String>) -> (r:
    Vec<(String, Vec<AdRow>)>)
    ensures
        r.deep_view() == dedup_last_wins(
            ad_rows_tagged_spec(html_pages.deep_view(), page_identifiers.deep_view()),
        ),
{
    let mut pairs = par_parse_tagged(html_pages, page_identifiers);
    let ghost all = ad_rows_tagged_spec(html_pages.deep_view(), page_identifiers.deep_view());
    let mut out: Vec<(String, Vec<AdRow>)> = Vec::new();
    let ghost mut consumed: int = 0;
    proof {
        assert(pairs.deep_view() =~= all.skip(0));
    }
    while pairs.len() > 0
        invariant
            0 <= consumed <= all.len(),
            pairs.deep_view() =~= all.skip(consumed),
            out.deep_view() =~= dedup_last_wins(all.take(consumed)),
            keys_distinct(out.deep_view()),
        decreases pairs.len(),
    {
        let ghost pairs_pre = pairs.deep_view();
        let ghost pv = pairs@;
        let p = pairs.remove(0);
        proof {
            assert(pairs_pre == all.skip(consumed));
            assert(all.skip(consumed)[0] == all[consumed]);
            assert(p.deep_view() == pairs_pre[0]);
            assert(p.deep_view() == all[consumed]);
            assert(pairs@ == pv.remove(0));
            assert(pv.remove(0) =~= pv.skip(1));
            assert forall|k: int| 0 <= k < pairs.deep_view().len() implies pairs.deep_view()[k]
                == all.skip(consumed + 1)[k] by {
                assert(pairs.deep_view()[k] == pairs@[k].deep_view());
                assert(pairs@[k] == pv[k + 1]);
                assert(pv[k + 1].deep_view() == pairs_pre[k + 1]);
                assert(pairs_pre[k + 1] == all.skip(consumed)[k + 1]);
                assert(all.skip(consumed)[k + 1] == all[consumed + 1 + k]);
                assert(all.skip(consumed + 1)[k] == all[consumed + 1 + k]);
            }
            assert(pairs.deep_view() =~= all.skip(consumed + 1));
        }
        let ghost front = out.deep_view();
        let ghost last = p.deep_view();
        let mut j: usize = 0;
        let mut found: bool = false;
        let mut at: usize = 0;
        while j < out.len() && !found
            invariant
                0 <= j <= out.len(),
                front == out.deep_view(),
                last == p.deep_view(),
                out.len() == front.len(),
                !found ==> forall|k: int| 0 <= k < j ==> (#[trigger] front[k]).0 != last.0,
                found ==> at < front.len() && front[at as int].0 == last.0,
            decreases out.len() - j + (if found {
                0int
            } else {
                1int
            }),
        {
            proof {
                assert(front[j as int].0 == out@[j as int].0@);
            }
            if out[j].0 == p.0 {
                found = true;
                at = j;
            } else {
                j = j + 1;
            }
        }
        proof {
            assert(all.take(consumed + 1).drop_last() =~= all.take(consumed));
            assert(dedup_last_wins(all.take(consumed + 1).drop_last()) == dedup_last_wins(
                all.take(consumed),
            ));
            assert(all.take(consumed + 1).last() == all[consumed]);
        }
        if found {
            out[at] = p;
            proof {
                assert(has_key(front, last.0));
                assert(out.deep_view() =~= front.update(at as int, last));
                assert forall|m: int| 0 <= m < front.len() implies front.update(at as int, last)[m]
                    == set_key(front, last.0, last.1)[m] by {
                    if m != at {
                        assert(front[m].0 != front[at as int].0);
                    }
                }
                assert(front.update(at as int, last) =~= set_key(front, last.0, last.1));
                assert(out.deep_view() =~= dedup_last_wins(all.take(consumed + 1)));
            }
        } else {
            out.push(p);
            proof {
                assert(!has_key(front, last.0)) by {
                    if has_key(front, last.0) {
                        let w = choose|w: int|
                            0 <= w < front.len() && (#[trigger] front[w]).0 == last.0;
                        assert(front[w].0 != last.0);
                    }
                }
                assert(out.deep_view() =~= front.push(last));
                assert(out.deep_view() =~= dedup_last_wins(all.take(consumed + 1)));
            }
        }
        proof {
            lemma_dedup_keys_distinct(all.take(consumed + 1));
            consumed = consumed + 1;
        }
    }
    proof {
        assert(all.take(consumed) =~= all);
    }
    out
}

/// A page lacking the sentinel container yields no offer rows.
pub proof fn lemma_missing_sentinel_no_rows(html: Seq<char>)
    ensures
        doc_subtrees(html, sentinel_selector()).len() == 0 ==> ad_rows_spec(html).len() == 0,
{
}

/// The derived tag of an offer row: `Online` exactly when a shipping value
/// was found, `Local` otherwise.
pub proof fn lemma_ad_type_from_shipping(row: Seq<char>)
    ensures
        shipping_spec(row).len() > 0 ==> ad_row_spec(row).ad_type == "Online"@,
        shipping_spec(row).len() == 0 ==> ad_row_spec(row).ad_type == "Local"@,
{
}

/// A link beginning with the search-redirect prefix is rewritten with the
/// fixed origin prepended; any other link passes through verbatim.
pub proof fn lemma_link_rewrite(href: Seq<char>)
    ensures
        starts_with_spec(href, link_prefix()) ==> rewrite_link_spec(href) == link_origin() + href,
        !starts_with_spec(href, link_prefix()) ==> rewrite_link_spec(href) == href,
{
}

} // verus!
