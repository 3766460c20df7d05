use utilkit::scrape::{
    join_texts, next_address, read_books, read_page, scrape_page, scrape_with, Book, Found, Page,
    ScrapeError, Selectors,
};

fn selectors(titles: &str, prices: &str, next: &str) -> Selectors {
    Selectors { titles: titles.to_string(), prices: prices.to_string(), next: next.to_string() }
}

fn book(title: &str, price: &str) -> Book {
    Book { title: title.to_string(), price: price.to_string() }
}

fn found(attr: Option<&str>, texts: &[&str]) -> Found {
    Found { attr: attr.map(str::to_string), texts: texts.iter().map(|t| t.to_string()).collect() }
}

const FIRST_PAGE: &str = r#"<!DOCTYPE html>
<html><head><title>All products</title></head><body>
<ol class="row">
  <li><article class="product_pod">
    <h3><a href="catalogue/a-light-in-the-attic_1000/index.html" title="A Light in the Attic">A Light in the ...</a></h3>
    <div class="product_price"><p class="price_color">£51.77</p><p class="instock">In stock</p></div>
  </article></li>
  <li><article class="product_pod">
    <h3><a href="catalogue/tipping-the-velvet_999/index.html" title="Tipping the Velvet">Tipping the Velvet</a></h3>
    <div class="product_price"><p class="price_color">£<b>53</b>.74</p></div>
  </article></li>
  <li><article class="product_pod">
    <h3><a href="catalogue/untitled_998/index.html">untitled</a></h3>
    <div class="product_price"><p class="price_color">£50.10</p></div>
  </article></li>
</ol>
<ul class="pager"><li class="current">Page 1 of 50</li><li class="next"><a href="catalogue/page-2.html">next</a></li></ul>
</body></html>"#;

#[test]
fn reads_books_and_next_page_of_a_catalogue_page() {
    let page = scrape_page(FIRST_PAGE, "https://books.toscrape.com/");
    assert_eq!(
        page,
        Ok(Page {
            books: vec![
                book("A Light in the Attic", "£51.77"),
                book("Tipping the Velvet", "£53.74"),
                book("No title", "£50.10"),
            ],
            next: Some("https://books.toscrape.com/catalogue/page-2.html".to_string()),
        })
    );
}

#[test]
fn last_page_has_no_next() {
    let body = r#"<html><body><h3><a title="Only">Only</a></h3><p class="price_color">£1.00</p>
        <ul class="pager"><li class="previous"><a href="page-49.html">previous</a></li></ul></body></html>"#;
    assert_eq!(
        scrape_page(body, "https://books.toscrape.com/catalogue/page-50.html"),
        Ok(Page { books: vec![book("Only", "£1.00")], next: None })
    );
}

#[test]
fn page_without_books() {
    assert_eq!(scrape_page("", "https://example.org/"), Ok(Page { books: vec![], next: None }));
    assert_eq!(
        scrape_page("<p>nothing here</p>", "no slash at all"),
        Ok(Page { books: vec![], next: None })
    );
}

#[test]
fn next_link_without_href_is_an_error() {
    let body = r#"<ul><li class="next"><a>next</a></li></ul>"#;
    assert_eq!(scrape_page(body, "https://example.org/"), Err(ScrapeError::LinkWithoutHref));
}

#[test]
fn next_link_on_an_address_without_slash_is_an_error() {
    let body = r#"<ul><li class="next"><a href="page-2.html">next</a></li></ul>"#;
    assert_eq!(scrape_page(body, "catalogue"), Err(ScrapeError::AddressWithoutSlash));
    assert_eq!(scrape_page(body, ""), Err(ScrapeError::AddressWithoutSlash));
}

#[test]
fn first_of_several_next_links_counts() {
    let body = r#"<ul><li class="next"><a href="one.html">next</a><a href="two.html">next</a></li></ul>"#;
    assert_eq!(
        scrape_page(body, "https://example.org/"),
        Ok(Page { books: vec![], next: Some("https://example.org/one.html".to_string()) })
    );
}

#[test]
fn link_goes_behind_an_address_that_ends_in_a_slash() {
    assert_eq!(
        next_address("https://books.toscrape.com/", "catalogue/page-2.html"),
        Some("https://books.toscrape.com/catalogue/page-2.html".to_string())
    );
    assert_eq!(next_address("/", "x"), Some("/x".to_string()));
}

#[test]
fn link_replaces_what_follows_the_last_slash_and_the_slash() {
    assert_eq!(
        next_address("https://books.toscrape.com/catalogue/page-2.html", "page-3.html"),
        Some("https://books.toscrape.com/cataloguepage-3.html".to_string())
    );
    assert_eq!(next_address("a/b", "c"), Some("ac".to_string()));
    assert_eq!(next_address("/b", "c"), Some("c".to_string()));
    assert_eq!(next_address("ä/ö/ü", "€"), Some("ä/ö€".to_string()));
}

#[test]
fn address_without_slash_leads_nowhere() {
    assert_eq!(next_address("catalogue", "page-2.html"), None);
    assert_eq!(next_address("", "page-2.html"), None);
}

#[test]
fn texts_are_joined_in_order() {
    assert_eq!(join_texts(&vec![]), "");
    assert_eq!(join_texts(&vec!["£".to_string(), "53".to_string(), ".74".to_string()]), "£53.74");
}

#[test]
fn titles_and_prices_are_paired_up_to_the_shorter_row() {
    let titles = vec![found(Some("A"), &["a"]), found(None, &["b"]), found(Some("C"), &[])];
    let prices = vec![found(None, &["1"]), found(Some("ignored"), &["2", "3"])];
    assert_eq!(read_books(&titles, &prices), vec![book("A", "1"), book("No title", "23")]);
    assert_eq!(read_books(&prices, &titles), vec![book("No title", "a"), book("ignored", "b")]);
    assert_eq!(read_books(&titles, &vec![]), vec![]);
}

#[test]
fn page_is_made_of_what_was_found() {
    let titles = vec![found(Some("A"), &[])];
    let prices = vec![found(None, &["1"])];
    let links = vec![found(Some("next.html"), &["next"])];
    assert_eq!(
        read_page(&titles, &prices, &links, "http://x/"),
        Ok(Page { books: vec![book("A", "1")], next: Some("http://x/next.html".to_string()) })
    );
    assert_eq!(
        read_page(&titles, &prices, &vec![], "http://x/"),
        Ok(Page { books: vec![book("A", "1")], next: None })
    );
    assert_eq!(
        read_page(&titles, &prices, &vec![found(None, &["next"])], "http://x/"),
        Err(ScrapeError::LinkWithoutHref)
    );
    assert_eq!(
        read_page(&titles, &prices, &links, "nowhere"),
        Err(ScrapeError::AddressWithoutSlash)
    );
}

#[test]
fn other_selectors_read_other_pages() {
    let body = r#"<div class="b"><span class="t" title="One">x</span><i>1 €</i></div>
        <div class="b"><span class="t" title="Two">y</span><i>2 €</i></div>
        <a id="more" href="p2">more</a>"#;
    assert_eq!(
        scrape_with(body, "http://shop/list/", &selectors("span.t", "div.b i", "a#more")),
        Ok(Page {
            books: vec![book("One", "1 €"), book("Two", "2 €")],
            next: Some("http://shop/list/p2".to_string()),
        })
    );
    assert_eq!(
        scrape_with(FIRST_PAGE, "https://books.toscrape.com/", &selectors("h3 a", ".price_color", "li.next a")),
        scrape_page(FIRST_PAGE, "https://books.toscrape.com/")
    );
}

#[test]
fn what_is_no_selector_is_refused() {
    for bad in ["", "h3 >", "[", "a:::b"] {
        assert_eq!(
            scrape_with(FIRST_PAGE, "http://x/", &selectors(bad, ".price_color", "li.next a")),
            Err(ScrapeError::BadSelector)
        );
        assert_eq!(
            scrape_with(FIRST_PAGE, "http://x/", &selectors("h3 a", bad, "li.next a")),
            Err(ScrapeError::BadSelector)
        );
        assert_eq!(
            scrape_with(FIRST_PAGE, "http://x/", &selectors("h3 a", ".price_color", bad)),
            Err(ScrapeError::BadSelector)
        );
    }
}
