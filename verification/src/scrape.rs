//! Reading a catalogue page: the books on it and the address of the page
//! that follows.
//!
//! Finding elements in the HTML is the work of the `scraper` crate. What is
//! made of the elements found, and how a link to the next page becomes an
//! address, is decided here.

use scraper::{Html, Selector};
use vstd::prelude::*;

verus! {

/// A book as the catalogue shows it.
#[derive(Debug, PartialEq, Eq)]
pub struct Book {
    pub title: String,
    pub price: String,
}

impl View for Book {
    type V = (Seq<char>, Seq<char>);

    /// The title, then the price.
    open spec fn view(&self) -> (Seq<char>, Seq<char>) {
        (self.title@, self.price@)
    }
}

/// What is read of one element that a selector matched: the value of the
/// attribute that was asked for, if the element has it, and the element's text
/// nodes in document order.
#[derive(Debug, PartialEq, Eq)]
pub struct Found {
    pub attr: Option<String>,
    pub texts: Vec<String>,
}

impl View for Found {
    type V = (Option<Seq<char>>, Seq<Seq<char>>);

    /// The attribute's value, then the text nodes.
    open spec fn view(&self) -> (Option<Seq<char>>, Seq<Seq<char>>) {
        (
            match self.attr {
                Some(value) => Some(value@),
                None => None,
            },
            self.texts@.map_values(|text: String| text@),
        )
    }
}

/// The mathematical value of a row of elements found.
pub open spec fn found_view(found: Seq<Found>) -> Seq<(Option<Seq<char>>, Seq<Seq<char>>)> {
    found.map_values(|one: Found| one@)
}

/// What `scraper` finds in the HTML document `body` for the CSS selector
/// `selector`: nothing if `selector` is no selector, else the elements that
/// match it, in the order in which `scraper` yields them, each with the value
/// of its attribute `attr` and its text nodes.
pub uninterp spec fn selected(body: Seq<char>, selector: Seq<char>, attr: Seq<char>) -> Option<
    Seq<(Option<Seq<char>>, Seq<Seq<char>>)>,
>;

/// Parses `body` with `scraper::Html::parse_document`, parses `selector`
/// with `scraper::Selector::parse`, and walks `Html::select`. For each element
/// it reads `Element::attr` and `ElementRef::text`. The outcome depends on the
/// three strings alone; the contract gives it its name and claims no more.
#[verifier::external_body]
fn select(body: &str, selector: &str, attr: &str) -> (found: Option<Vec<Found>>)
    ensures
        match found {
            Some(elements) => selected(body@, selector@, attr@) == Some(found_view(elements@)),
            None => selected(body@, selector@, attr@) is None,
        },
{
    let Ok(selector) = Selector::parse(selector) else {
        return None;
    };
    let document = Html::parse_document(body);
    let mut found = Vec::new();
    for element in document.select(&selector) {
        let attr = element.value().attr(attr).map(str::to_string);
        let texts = element.text().map(str::to_string).collect();
        found.push(Found { attr, texts });
    }
    Some(found)
}

/// The texts of `parts` put together, first to last.
pub open spec fn joined(parts: Seq<Seq<char>>) -> Seq<char>
    decreases parts.len(),
{
    if parts.len() == 0 {
        Seq::empty()
    } else {
        joined(parts.drop_last()) + parts.last()
    }
}

/// Puts the texts of `parts` together, first to last.
pub fn join_texts(parts: &Vec<String>) -> (whole: String)
    ensures
        whole@ == joined(parts@.map_values(|text: String| text@)),
{
    let ghost texts = parts@.map_values(|text: String| text@);
    let mut whole: String = String::new();
    let mut i: usize = 0;
    while i < parts.len()
        invariant
            i <= parts.len(),
            texts == parts@.map_values(|text: String| text@),
            whole@ == joined(texts.take(i as int)),
        decreases parts.len() - i,
    {
        assert(texts.take(i + 1).drop_last() =~= texts.take(i as int));
        whole.append(parts[i].as_str());
        i += 1;
    }
    assert(texts.take(i as int) =~= texts);
    whole
}

/// The book that is made of an element with the title and an element with
/// the price: the title is the value of the first one's attribute, or
/// `No title` if it has none; the price is the text of the second.
pub open spec fn book_of(
    title: (Option<Seq<char>>, Seq<Seq<char>>),
    price: (Option<Seq<char>>, Seq<Seq<char>>),
) -> (Seq<char>, Seq<char>) {
    (
        match title.0 {
            Some(text) => text,
            None => "No title"@,
        },
        joined(price.1),
    )
}

/// The books of a page: title elements and price elements are paired in
/// order, and what is left over of the longer row is dropped.
pub open spec fn books_of(
    titles: Seq<(Option<Seq<char>>, Seq<Seq<char>>)>,
    prices: Seq<(Option<Seq<char>>, Seq<Seq<char>>)>,
) -> Seq<(Seq<char>, Seq<char>)> {
    Seq::new(
        if titles.len() <= prices.len() {
            titles.len()
        } else {
            prices.len()
        },
        |i: int| book_of(titles[i], prices[i]),
    )
}

/// The mathematical value of a row of books.
pub open spec fn books_view(books: Seq<Book>) -> Seq<(Seq<char>, Seq<char>)> {
    books.map_values(|book: Book| book@)
}

/// Pairs title elements with price elements and makes a book of each pair.
pub fn read_books(titles: &Vec<Found>, prices: &Vec<Found>) -> (books: Vec<Book>)
    ensures
        books_view(books@) == books_of(found_view(titles@), found_view(prices@)),
{
    let count: usize = if titles.len() <= prices.len() {
        titles.len()
    } else {
        prices.len()
    };
    let mut books: Vec<Book> = Vec::new();
    let mut i: usize = 0;
    while i < count
        invariant
            i <= count,
            count <= titles.len(),
            count <= prices.len(),
            books.len() == i,
            forall|k: int|
                0 <= k < i ==> (#[trigger] books[k])@ == book_of(
                    found_view(titles@)[k],
                    found_view(prices@)[k],
                ),
        decreases count - i,
    {
        let title: String = match &titles[i].attr {
            Some(text) => text.clone(),
            None => "No title".to_string(),
        };
        let price: String = join_texts(&prices[i].texts);
        books.push(Book { title, price });
        i += 1;
    }
    assert(books_view(books@) =~= books_of(found_view(titles@), found_view(prices@)));
    books
}

/// Where the last `/` of `url` stands, or -1 if it has none.
pub open spec fn last_slash(url: Seq<char>) -> int
    decreases url.len(),
{
    if url.len() == 0 {
        -1
    } else if url.last() == '/' {
        url.len() - 1
    } else {
        last_slash(url.drop_last())
    }
}

/// The address that the link `href` on the page at `url` leads to. If `url`
/// ends in `/`, `href` is put behind it. Otherwise `href` is put behind what
/// stands before the last `/` of `url`. A `url` without `/` leads nowhere.
pub open spec fn following(url: Seq<char>, href: Seq<char>) -> Option<Seq<char>> {
    let at = last_slash(url);
    if at < 0 {
        None
    } else if at == url.len() - 1 {
        Some(url + href)
    } else {
        Some(url.take(at) + href)
    }
}

/// The text of an optional string.
pub open spec fn text_view(text: Option<String>) -> Option<Seq<char>> {
    match text {
        Some(text) => Some(text@),
        None => None,
    }
}

/// Makes the address of the next page from the address of this page and the
/// link found on it.
pub fn next_address(url: &str, href: &str) -> (next: Option<String>)
    ensures
        text_view(next) == following(url@, href@),
{
    broadcast use vstd::string::group_string_axioms;

    let len: usize = url.unicode_len();
    let mut at: Option<usize> = None;
    let mut i: usize = 0;
    for ch in it: url.chars()
        invariant
            it.seq() == url@,
            url@.len() == len,
            i == it.index(),
            match at {
                Some(k) => k < i && last_slash(url@.take(i as int)) == k,
                None => last_slash(url@.take(i as int)) == -1,
            },
    {
        assert(url@.take(i + 1).drop_last() =~= url@.take(i as int));
        if ch == '/' {
            at = Some(i);
        }
        i += 1;
    }
    assert(url@.take(i as int) =~= url@);
    match at {
        None => None,
        Some(k) => {
            let base: &str = if k + 1 == len {
                url
            } else {
                url.substring_char(0, k)
            };
            let mut next: String = base.to_string();
            next.append(href);
            assert(url@.subrange(0, k as int) =~= url@.take(k as int));
            Some(next)
        },
    }
}

/// Why a page could not be read.
#[derive(Debug, Clone, Copy, PartialEq, Eq, Structural)]
pub enum ScrapeError {
    /// One of the selectors was not accepted as a selector.
    BadSelector,
    /// The link to the next page has no `href`.
    LinkWithoutHref,
    /// The page's own address holds no `/`, so that a link on it leads
    /// nowhere.
    AddressWithoutSlash,
}

/// What was read of a page.
#[derive(Debug, PartialEq, Eq)]
pub struct Page {
    /// The books on the page, in order.
    pub books: Vec<Book>,
    /// The address of the page that follows, if one does.
    pub next: Option<String>,
}

impl View for Page {
    type V = (Seq<(Seq<char>, Seq<char>)>, Option<Seq<char>>);

    /// The books, then the address of the next page.
    open spec fn view(&self) -> (Seq<(Seq<char>, Seq<char>)>, Option<Seq<char>>) {
        (books_view(self.books@), text_view(self.next))
    }
}

/// The mathematical value of what reading a page came to.
pub open spec fn page_view(page: Result<Page, ScrapeError>) -> Result<
    (Seq<(Seq<char>, Seq<char>)>, Option<Seq<char>>),
    ScrapeError,
> {
    match page {
        Ok(page) => Ok(page@),
        Err(error) => Err(error),
    }
}

/// The page that is made of the title elements, the price elements and the
/// next-page links found at `url`. The first link counts; with no link there
/// is no next page.
pub open spec fn page_of(
    titles: Seq<(Option<Seq<char>>, Seq<Seq<char>>)>,
    prices: Seq<(Option<Seq<char>>, Seq<Seq<char>>)>,
    links: Seq<(Option<Seq<char>>, Seq<Seq<char>>)>,
    url: Seq<char>,
) -> Result<(Seq<(Seq<char>, Seq<char>)>, Option<Seq<char>>), ScrapeError> {
    if links.len() == 0 {
        Ok((books_of(titles, prices), None))
    } else {
        match links[0].0 {
            None => Err(ScrapeError::LinkWithoutHref),
            Some(href) => match following(url, href) {
                None => Err(ScrapeError::AddressWithoutSlash),
                Some(next) => Ok((books_of(titles, prices), Some(next))),
            },
        }
    }
}

/// Makes the page of the elements found on it.
pub fn read_page(titles: &Vec<Found>, prices: &Vec<Found>, links: &Vec<Found>, url: &str) -> (page:
    Result<Page, ScrapeError>)
    ensures
        page_view(page) == page_of(
            found_view(titles@),
            found_view(prices@),
            found_view(links@),
            url@,
        ),
{
    let books: Vec<Book> = read_books(titles, prices);
    if links.len() == 0 {
        return Ok(Page { books, next: None });
    }
    match &links[0].attr {
        None => Err(ScrapeError::LinkWithoutHref),
        Some(href) => match next_address(url, href.as_str()) {
            None => Err(ScrapeError::AddressWithoutSlash),
            Some(next) => Ok(Page { books, next: Some(next) }),
        },
    }
}

/// The selectors that say where a catalogue page keeps its books and its
/// link to the next page.
#[derive(Debug, Clone, PartialEq, Eq)]
pub struct Selectors {
    /// Matches the elements whose `title` attribute is a book's title.
    pub titles: String,
    /// Matches the elements whose text is a book's price.
    pub prices: String,
    /// Matches the links to the next page; their `href` is where it is.
    pub next: String,
}

/// What reading the HTML document `body`, fetched from `url`, comes to with
/// the three selectors given, as decided by what `scraper` finds for each.
/// Of the price elements only the text counts.
pub open spec fn scraped_with(
    body: Seq<char>,
    url: Seq<char>,
    titles: Seq<char>,
    prices: Seq<char>,
    next: Seq<char>,
) -> Result<(Seq<(Seq<char>, Seq<char>)>, Option<Seq<char>>), ScrapeError> {
    match (
        selected(body, titles, "title"@),
        selected(body, prices, "title"@),
        selected(body, next, "href"@),
    ) {
        (Some(titles), Some(prices), Some(links)) => page_of(titles, prices, links, url),
        _ => Err(ScrapeError::BadSelector),
    }
}

/// Reads a page with selectors of the caller's choice. If one of them is no
/// selector, nothing is read.
pub fn scrape_with(body: &str, url: &str, selectors: &Selectors) -> (page: Result<
    Page,
    ScrapeError,
>)
    ensures
        page_view(page) == scraped_with(
            body@,
            url@,
            selectors.titles@,
            selectors.prices@,
            selectors.next@,
        ),
{
    let titles = select(body, selectors.titles.as_str(), "title");
    let prices = select(body, selectors.prices.as_str(), "title");
    let links = select(body, selectors.next.as_str(), "href");
    match (titles, prices, links) {
        (Some(titles), Some(prices), Some(links)) => read_page(&titles, &prices, &links, url),
        _ => Err(ScrapeError::BadSelector),
    }
}

/// What reading a page of the book catalogue comes to: titles are the
/// `title` attributes of the links in the headings, prices the texts of the
/// elements of class `price_color`, and the next page is where the link in the
/// `next` list item leads.
pub open spec fn scraped(body: Seq<char>, url: Seq<char>) -> Result<
    (Seq<(Seq<char>, Seq<char>)>, Option<Seq<char>>),
    ScrapeError,
> {
    scraped_with(body, url, "h3 a"@, ".price_color"@, "li.next a"@)
}

/// Reads a page of the book catalogue: the books on it, and the address of
/// the next page if the page links to one.
pub fn scrape_page(body: &str, url: &str) -> (page: Result<Page, ScrapeError>)
    ensures
        page_view(page) == scraped(body@, url@),
{
    let selectors = Selectors {
        titles: "h3 a".to_string(),
        prices: ".price_color".to_string(),
        next: "li.next a".to_string(),
    };
    scrape_with(body, url, &selectors)
}

} // verus!
