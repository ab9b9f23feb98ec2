//! Reading entrant and contest figures out of the contest site's pages.

use vstd::prelude::*;

use crate::contest::{untimed_record, Contest, ContestData, ContestDataView, ContestView};
use crate::entry::{entries_view, untimed, untimed_all, EntryData, EntryDataView};
use crate::text::{
    first_two_lines, join_first_two_lines, numeric_field, parse_numeric_field, remove_all,
    removed, trim, trimmed,
};

verus! {

/// The entrant's name heading on an entry page.
pub const NAME_SELECTOR: &'static str = "#form1 > div.main > div.mainBody > div:nth-child(1) > h1";

/// The vote count on an entry page.
pub const VOTES_SELECTOR: &'static str = "h3.viewEntryVotes";

/// The amount raised on an entry page.
pub const RAISED_SELECTOR: &'static str = "#ContentPlaceHolder_divRaised > span";

/// The category line on an entry page.
pub const CATEGORY_SELECTOR: &'static str = "#ContentPlaceHolder_divEntryCategory";

/// The label that opens the category line.
pub const CATEGORY_LABEL: &'static str = "Entry Category:";

/// The entrant's picture on an entry page.
pub const PICTURE_SELECTOR: &'static str = "#ContentPlaceHolder_imgEntry";

/// The links to entry pages on a contest's search page, in leaderboard order.
pub const ENTRY_LINK_SELECTOR: &'static str = "#ContentPlaceHolder_upPanel .searchEntryCont a.searchEntry";

/// The amount a contest has raised, on its main page.
pub const CONTEST_RAISED_SELECTOR: &'static str = "#ContentPlaceHolder_divFundraisingMeter > div.raised > span";

/// A contest's goal, on its main page.
pub const CONTEST_GOAL_SELECTOR: &'static str = "#ContentPlaceHolder_divFundraisingMeter > div.goal > span";

/// The number of entries, on a contest's search page.
pub const ENTRY_COUNT_SELECTOR: &'static str = "#ContentPlaceHolder_divSearchTitle > span.numEntries";

/// The text content of the elements of `html` that `selector` matches, in
/// document order; empty where none match.
pub uninterp spec fn selected_text(html: Seq<char>, selector: Seq<char>) -> Seq<char>;

/// For each element of `html` that `selector` matches, in document order, the
/// value of its attribute `name`, if it has one.
pub uninterp spec fn selected_attrs(html: Seq<char>, selector: Seq<char>, name: Seq<char>) -> Seq<
    Option<Seq<char>>,
>;

/// Relies on nipper: `Document::from` parses the page, `Document::try_select`
/// matches the selector (nothing on an invalid selector), and `Selection::text`
/// joins the text of the matched elements.
#[verifier::external_body]
fn select_text(html: &str, selector: &str) -> (r: String)
    ensures
        r@ == selected_text(html@, selector@),
{
    let doc = nipper::Document::from(html);
    match doc.try_select(selector) {
        Some(sel) => sel.text().to_string(),
        None => String::new(),
    }
}

pub open spec fn opt_str_view(o: Option<String>) -> Option<Seq<char>> {
    match o {
        Some(s) => Some(s@),
        None => None,
    }
}

/// Relies on nipper: `Document::from` parses the page, `Document::try_select`
/// matches the selector (nothing on an invalid selector), and `Node::attr`
/// reads the attribute of each matched element.
#[verifier::external_body]
fn select_attrs(html: &str, selector: &str, name: &str) -> (r: Vec<Option<String>>)
    ensures
        r@.map_values(|o: Option<String>| opt_str_view(o)) == selected_attrs(
            html@,
            selector@,
            name@,
        ),
{
    let doc = nipper::Document::from(html);
    match doc.try_select(selector) {
        Some(sel) => sel.nodes().iter().map(|n| n.attr(name).map(|v| v.to_string())).collect(),
        None => Vec::new(),
    }
}

/// The attribute of the first matched element, or empty where it has none.
pub open spec fn first_attr(attrs: Seq<Option<Seq<char>>>) -> Seq<char> {
    if attrs.len() > 0 && attrs[0] is Some {
        attrs[0]->Some_0
    } else {
        Seq::empty()
    }
}

/// The entrant an entry page describes.
pub open spec fn entry_from_page(
    domain: Seq<char>,
    url: Seq<char>,
    contest: ContestView,
    html: Seq<char>,
    timestamp: i64,
) -> EntryDataView {
    EntryDataView {
        dog: trimmed(first_two_lines(selected_text(html, NAME_SELECTOR@))),
        votes: numeric_field(selected_text(html, VOTES_SELECTOR@)),
        raised: numeric_field(selected_text(html, RAISED_SELECTOR@)),
        contest,
        category: trimmed(removed(selected_text(html, CATEGORY_SELECTOR@), CATEGORY_LABEL@)),
        page: url,
        picture: domain + first_attr(selected_attrs(html, PICTURE_SELECTOR@, "src"@)),
        timestamp,
    }
}

/// Reads an entrant from its entry page: the name from the first two lines
/// of the heading, votes and amount raised by the numeric rule, the category
/// without its label, and the picture address on the site's domain.
pub fn parse_entry_page(domain: &str, url: &str, contest: &Contest, html: &str, timestamp: i64) -> (r:
    EntryData)
    ensures
        r@ == entry_from_page(domain@, url@, contest@, html@, timestamp),
{
    let heading = select_text(html, NAME_SELECTOR);
    let dog = trim(join_first_two_lines(heading.as_str()).as_str());
    let votes = parse_numeric_field(select_text(html, VOTES_SELECTOR).as_str());
    let raised = parse_numeric_field(select_text(html, RAISED_SELECTOR).as_str());
    proof {
        reveal_strlit("Entry Category:");
    }
    let category_line = select_text(html, CATEGORY_SELECTOR);
    let category = trim(remove_all(category_line.as_str(), CATEGORY_LABEL).as_str());
    let sources = select_attrs(html, PICTURE_SELECTOR, "src");
    let ghost sv = sources@.map_values(|o: Option<String>| opt_str_view(o));
    let mut picture = String::from_str(domain);
    if sources.len() > 0 {
        match &sources[0] {
            Some(src) => {
                assert(sv[0] == opt_str_view(sources@[0]));
                picture.append(src.as_str());
            },
            None => {
                assert(sv[0] == opt_str_view(sources@[0]));
                assert(domain@ + Seq::<char>::empty() =~= domain@);
            },
        }
    } else {
        assert(domain@ + Seq::<char>::empty() =~= domain@);
    }
    EntryData {
        dog,
        votes,
        raised,
        contest: contest.copied(),
        category,
        page: String::from_str(url),
        picture,
        timestamp,
    }
}

pub open spec fn strings_view(s: Seq<String>) -> Seq<Seq<char>> {
    s.map_values(|x: String| x@)
}

/// The address of a contest's main page.
pub open spec fn contest_url_of(domain: Seq<char>, page: Seq<char>) -> Seq<char> {
    domain + "/"@ + page
}

/// The address of a contest's search page, which holds its leaderboard and
/// entry count.
pub open spec fn search_url_of(domain: Seq<char>, page: Seq<char>) -> Seq<char> {
    contest_url_of(domain, page) + "/search"@
}

pub fn contest_url(domain: &str, contest: &Contest) -> (r: String)
    ensures
        r@ == contest_url_of(domain@, contest.page@),
{
    let mut r = String::from_str(domain);
    r.append("/");
    r.append(contest.page.as_str());
    r
}

pub fn search_url(domain: &str, contest: &Contest) -> (r: String)
    ensures
        r@ == search_url_of(domain@, contest.page@),
{
    let mut r = contest_url(domain, contest);
    r.append("/search");
    r
}

/// The addresses of the links that have an address, each joined to the
/// domain, in order.
pub open spec fn present_links(domain: Seq<char>, hrefs: Seq<Option<Seq<char>>>) -> Seq<Seq<char>>
    decreases hrefs.len(),
{
    if hrefs.len() == 0 {
        Seq::empty()
    } else {
        let rest = present_links(domain, hrefs.drop_last());
        match hrefs.last() {
            Some(h) => rest.push(domain + h),
            None => rest,
        }
    }
}

/// The entry pages to crawl: the first `limit` leaderboard links of the search
/// page; a link without an address is passed over.
pub open spec fn leaderboard_links(domain: Seq<char>, limit: usize, search_html: Seq<char>) -> Seq<
    Seq<char>,
> {
    let hrefs = selected_attrs(search_html, ENTRY_LINK_SELECTOR@, "href"@);
    present_links(domain, hrefs.take(if limit < hrefs.len() { limit as int } else { hrefs.len() as int }))
}

/// The entry pages to crawl for a contest, capped at its entry count.
pub fn entry_links(domain: &str, contest: &Contest, search_html: &str) -> (r: Vec<String>)
    ensures
        strings_view(r@) == leaderboard_links(domain@, contest.num_dogs, search_html@),
{
    let hrefs = select_attrs(search_html, ENTRY_LINK_SELECTOR, "href");
    let ghost hv = hrefs@.map_values(|o: Option<String>| opt_str_view(o));
    let n = if contest.num_dogs < hrefs.len() {
        contest.num_dogs
    } else {
        hrefs.len()
    };
    let mut r: Vec<String> = Vec::new();
    let mut i: usize = 0;
    while i < n
        invariant
            n <= hrefs@.len(),
            hv == hrefs@.map_values(|o: Option<String>| opt_str_view(o)),
            i <= n,
            strings_view(r@) == present_links(domain@, hv.take(i as int)),
        decreases n - i,
    {
        let ghost prev = r@;
        assert(hv.take(i + 1).drop_last() =~= hv.take(i as int));
        assert(hv.take(i + 1).last() == opt_str_view(hrefs@[i as int]));
        match &hrefs[i] {
            Some(h) => {
                let mut link = String::from_str(domain);
                link.append(h.as_str());
                r.push(link);
                assert(strings_view(r@) =~= strings_view(prev).push(domain@ + h@));
            },
            None => {},
        }
        i = i + 1;
    }
    r
}

/// An entry page as fetched: its address, its text where the fetch succeeded,
/// and when it was fetched.
pub struct FetchedPage {
    pub url: String,
    pub html: Option<String>,
    pub timestamp: i64,
}

pub struct FetchedPageView {
    pub url: Seq<char>,
    pub html: Option<Seq<char>>,
    pub timestamp: i64,
}

impl View for FetchedPage {
    type V = FetchedPageView;

    open spec fn view(&self) -> FetchedPageView {
        FetchedPageView { url: self.url@, html: opt_str_view(self.html), timestamp: self.timestamp }
    }
}

pub open spec fn pages_view(s: Seq<FetchedPage>) -> Seq<FetchedPageView> {
    s.map_values(|p: FetchedPage| p@)
}

/// The entrants read from the pages that were fetched, in page order; a page
/// that could not be fetched contributes nothing.
pub open spec fn crawled_entries(
    domain: Seq<char>,
    contest: ContestView,
    pages: Seq<FetchedPageView>,
) -> Seq<EntryDataView>
    decreases pages.len(),
{
    if pages.len() == 0 {
        Seq::empty()
    } else {
        let rest = crawled_entries(domain, contest, pages.drop_last());
        let p = pages.last();
        match p.html {
            Some(h) => rest.push(entry_from_page(domain, p.url, contest, h, p.timestamp)),
            None => rest,
        }
    }
}

/// A fetched page with its fetch time cleared.
pub open spec fn untimed_page(p: FetchedPageView) -> FetchedPageView {
    FetchedPageView { timestamp: 0, ..p }
}

pub open spec fn untimed_pages(s: Seq<FetchedPageView>) -> Seq<FetchedPageView> {
    s.map_values(|p: FetchedPageView| untimed_page(p))
}

/// The same pages fetched at other times give the same entrants but for
/// their capture times.
pub proof fn lemma_crawl_ignores_time(
    domain: Seq<char>,
    contest: ContestView,
    p1: Seq<FetchedPageView>,
    p2: Seq<FetchedPageView>,
)
    requires
        untimed_pages(p1) == untimed_pages(p2),
    ensures
        untimed_all(crawled_entries(domain, contest, p1)) == untimed_all(
            crawled_entries(domain, contest, p2),
        ),
    decreases p1.len(),
{
    assert(p1.len() == untimed_pages(p1).len());
    assert(p2.len() == untimed_pages(p2).len());
    if p1.len() > 0 {
        assert(untimed_pages(p1.drop_last()) =~= untimed_pages(p1).drop_last());
        assert(untimed_pages(p2.drop_last()) =~= untimed_pages(p2).drop_last());
        lemma_crawl_ignores_time(domain, contest, p1.drop_last(), p2.drop_last());
        let x1 = p1.last();
        let x2 = p2.last();
        assert(untimed_pages(p1)[p1.len() - 1] == untimed_pages(p2)[p2.len() - 1]);
        assert(untimed_page(x1) == untimed_page(x2));
        let r1 = crawled_entries(domain, contest, p1.drop_last());
        let r2 = crawled_entries(domain, contest, p2.drop_last());
        match x1.html {
            Some(h) => {
                let e1 = entry_from_page(domain, x1.url, contest, h, x1.timestamp);
                let e2 = entry_from_page(domain, x2.url, contest, h, x2.timestamp);
                assert(untimed_all(r1.push(e1)) =~= untimed_all(r1).push(untimed(e1)));
                assert(untimed_all(r2.push(e2)) =~= untimed_all(r2).push(untimed(e2)));
            },
            None => {},
        }
    }
}

/// A contest's pages read at other times give the same aggregate but for
/// its capture time.
pub proof fn lemma_contest_pages_ignore_time(
    contest: ContestView,
    main_html: Seq<char>,
    search_html: Seq<char>,
    t1: i64,
    t2: i64,
)
    ensures
        untimed_record(contest_from_pages(contest, main_html, search_html, t1)) == untimed_record(
            contest_from_pages(contest, main_html, search_html, t2),
        ),
{
}

/// A contest's entrants from its fetched entry pages, in leaderboard order;
/// a page whose fetch failed is skipped.
pub fn entries_from_pages(domain: &str, contest: &Contest, pages: &Vec<FetchedPage>) -> (r: Vec<
    EntryData,
>)
    ensures
        entries_view(r@) == crawled_entries(domain@, contest@, pages_view(pages@)),
{
    let ghost pv = pages_view(pages@);
    let mut r: Vec<EntryData> = Vec::new();
    let mut i: usize = 0;
    while i < pages.len()
        invariant
            pv == pages_view(pages@),
            i <= pages@.len(),
            entries_view(r@) == crawled_entries(domain@, contest@, pv.take(i as int)),
        decreases pages@.len() - i,
    {
        let ghost prev = r@;
        assert(pv.take(i + 1).drop_last() =~= pv.take(i as int));
        assert(pv.take(i + 1).last() == pages@[i as int]@);
        let page = &pages[i];
        match &page.html {
            Some(h) => {
                let e = parse_entry_page(domain, page.url.as_str(), contest, h.as_str(), page.timestamp);
                r.push(e);
                assert(entries_view(r@) =~= entries_view(prev).push(e@));
            },
            None => {},
        }
        i = i + 1;
    }
    assert(pv.take(pages@.len() as int) =~= pv);
    r
}

/// The number of entries a contest's search page reports.
pub open spec fn entry_count_of(search_html: Seq<char>) -> usize {
    numeric_field(selected_text(search_html, ENTRY_COUNT_SELECTOR@))
}

/// Reads the number of entries from a contest's search page.
pub fn parse_entry_count(search_html: &str) -> (r: usize)
    ensures
        r == entry_count_of(search_html@),
{
    parse_numeric_field(select_text(search_html, ENTRY_COUNT_SELECTOR).as_str())
}

/// A contest's aggregate figures read from its main and search pages, with
/// the bonus-day amount at the contest's baseline.
pub open spec fn contest_from_pages(
    contest: ContestView,
    main_html: Seq<char>,
    search_html: Seq<char>,
    timestamp: i64,
) -> ContestDataView {
    ContestDataView {
        contest,
        goal: numeric_field(selected_text(main_html, CONTEST_GOAL_SELECTOR@)),
        raised: numeric_field(selected_text(main_html, CONTEST_RAISED_SELECTOR@)),
        total_entries: entry_count_of(search_html),
        champ_day: contest.champ_day,
        timestamp,
    }
}

/// Reads a contest's aggregate figures from its main page and its search page.
pub fn parse_contest_pages(contest: &Contest, main_html: &str, search_html: &str, timestamp: i64) -> (r:
    ContestData)
    ensures
        r@ == contest_from_pages(contest@, main_html@, search_html@, timestamp),
{
    let raised = parse_numeric_field(select_text(main_html, CONTEST_RAISED_SELECTOR).as_str());
    let goal = parse_numeric_field(select_text(main_html, CONTEST_GOAL_SELECTOR).as_str());
    let total_entries = parse_entry_count(search_html);
    ContestData {
        contest: contest.copied(),
        goal,
        raised,
        total_entries,
        champ_day: contest.champ_day,
        timestamp,
    }
}

} // verus!
