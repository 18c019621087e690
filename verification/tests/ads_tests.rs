use rusticsoup::ads::{bulk_parse_google_shopping, parse_google_page, parse_multiple_google_pages};

fn offers_page() -> String {
    let mut html = String::new();
    html.push_str("<html><body><div id=\"sh-osd__online-sellers-cont\"><table><tbody>");
    html.push_str("<tr data-is-grid-offer=\"true\"><td><a class=\"b5ycib\" href=\"#\"> Shop AOpens in a new window </a></td>");
    html.push_str("<td><span class=\"g9WBQb\"> $10.00 </span></td>");
    html.push_str("<td><div class=\"drzWO\"> $12.99 </div></td>");
    html.push_str("<td><a class=\"UxuaJe\" href=\"/url?q=https://a.example/item\">link</a></td></tr>");
    html.push_str("<tr data-is-grid-offer=\"true\"><td><a class=\"b5ycib\" href=\"#\">Shop B</a></td>");
    html.push_str("<td><span class=\"g9WBQb\">$11.00</span></td>");
    html.push_str("<td><a class=\"UxuaJe\" href=\"https://b.example/item\">link</a></td></tr>");
    html.push_str("</tbody></table></div></body></html>");
    html
}

#[test]
fn page_without_sentinel_yields_no_rows() {
    let html = "<html><body><table><tbody>\
        <tr data-is-grid-offer=\"true\"><td><span class=\"g9WBQb\">$1</span></td></tr>\
        </tbody></table></body></html>";
    let ads = parse_google_page(html);
    assert!(ads.is_empty());
}

#[test]
fn shipping_value_drives_the_type_tag() {
    let ads = parse_google_page(&offers_page());
    assert_eq!(ads.len(), 2);
    assert_eq!(ads[0].total_price, "$12.99");
    assert_eq!(ads[0].ad_type, "Online");
    assert_eq!(ads[1].total_price, "");
    assert_eq!(ads[1].ad_type, "Local");
}

#[test]
fn redirect_link_is_rewritten_other_links_pass_through() {
    let ads = parse_google_page(&offers_page());
    assert_eq!(ads.len(), 2);
    assert_eq!(ads[0].link, "https://www.google.com/url?q=https://a.example/item");
    assert_eq!(ads[1].link, "https://b.example/item");
}

#[test]
fn seller_name_is_cleaned_and_prices_trimmed() {
    let ads = parse_google_page(&offers_page());
    assert_eq!(ads.len(), 2);
    assert_eq!(ads[0].seller_name, "Shop A");
    assert_eq!(ads[0].offer_price, "$10.00");
    assert_eq!(ads[1].seller_name, "Shop B");
    assert_eq!(ads[1].offer_price, "$11.00");
}

#[test]
fn bulk_parsing_matches_single_pages_in_order() {
    let pages = vec![offers_page(), "<html><body>no offers</body></html>".to_string()];
    let bulk = bulk_parse_google_shopping(&pages);
    assert_eq!(bulk.len(), 2);
    assert_eq!(bulk[0].len(), 2);
    assert!(bulk[1].is_empty());
    for (i, page) in pages.iter().enumerate() {
        let single = parse_google_page(page);
        assert_eq!(bulk[i].len(), single.len());
        for (a, b) in bulk[i].iter().zip(single.iter()) {
            assert_eq!(a.seller_name, b.seller_name);
            assert_eq!(a.offer_price, b.offer_price);
            assert_eq!(a.total_price, b.total_price);
            assert_eq!(a.link, b.link);
            assert_eq!(a.ad_type, b.ad_type);
        }
    }
}

#[test]
fn tagged_parsing_zips_to_the_shorter_sequence() {
    let pages = vec![offers_page(), offers_page()];
    let identifiers = vec!["first".to_string()];
    let tagged = parse_multiple_google_pages(&pages, &identifiers);
    assert_eq!(tagged.len(), 1);
    assert_eq!(tagged[0].0, "first");
    assert_eq!(tagged[0].1.len(), 2);
}

#[test]
fn tagged_parsing_keeps_one_entry_per_identifier_last_page_wins() {
    let empty_page = "<html><body>no offers</body></html>".to_string();
    let pages = vec![offers_page(), empty_page];
    let identifiers = vec!["x".to_string(), "x".to_string()];
    let tagged = parse_multiple_google_pages(&pages, &identifiers);
    assert_eq!(tagged.len(), 1);
    assert_eq!(tagged[0].0, "x");
    assert!(tagged[0].1.is_empty());
}

#[test]
fn tagged_parsing_orders_identifiers_by_first_appearance() {
    let empty_page = "<html><body>no offers</body></html>".to_string();
    let pages = vec![empty_page.clone(), empty_page, offers_page()];
    let identifiers = vec!["a".to_string(), "b".to_string(), "a".to_string()];
    let tagged = parse_multiple_google_pages(&pages, &identifiers);
    assert_eq!(tagged.len(), 2);
    assert_eq!(tagged[0].0, "a");
    assert_eq!(tagged[0].1.len(), 2);
    assert_eq!(tagged[1].0, "b");
    assert!(tagged[1].1.is_empty());
}
