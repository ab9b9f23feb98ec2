use oshkosh_kiwanis_web_crawler::contest::Contest;
use oshkosh_kiwanis_web_crawler::scrape::{
    contest_url, entries_from_pages, entry_links, parse_contest_pages, parse_entry_count,
    parse_entry_page, search_url, FetchedPage,
};

const DOMAIN: &str = "https://contests.example.com";

fn entry_page(name: &str, votes: &str, raised: &str, category: &str, picture: Option<&str>) -> String {
    let img = match picture {
        Some(src) => format!("<img id=\"ContentPlaceHolder_imgEntry\" src=\"{}\">", src),
        None => "<img id=\"ContentPlaceHolder_imgEntry\">".to_string(),
    };
    format!(
        "<html><body><form id=\"form1\"><div class=\"main\"><div class=\"mainBody\"><div><h1>{}</h1></div></div></div></form>\
         <h3 class=\"viewEntryVotes\">{}</h3>\
         <div id=\"ContentPlaceHolder_divRaised\"><span>{}</span></div>\
         <div id=\"ContentPlaceHolder_divEntryCategory\">{}</div>{}</body></html>",
        name, votes, raised, category, img
    )
}

fn search_page(links: &[Option<&str>], count: &str) -> String {
    let mut body = String::new();
    for l in links {
        match l {
            Some(href) => body.push_str(&format!(
                "<div class=\"searchEntryCont\"><a class=\"searchEntry\" href=\"{}\">x</a></div>",
                href
            )),
            None => body.push_str("<div class=\"searchEntryCont\"><a class=\"searchEntry\">x</a></div>"),
        }
    }
    format!(
        "<html><body><div id=\"ContentPlaceHolder_divSearchTitle\"><span class=\"numEntries\">{}</span></div>\
         <div id=\"ContentPlaceHolder_upPanel\">{}</div></body></html>",
        count, body
    )
}

#[test]
fn entry_page_fields_are_extracted() {
    let contest = Contest::new("Neenah's NEW Top Dog Fall 2022", "newtopdogneenahfall2022", 0, 15);
    let html = entry_page(
        "\n  Rex\n  the Dog\n  ignored",
        "1,234 Votes",
        "$567 Raised",
        "Entry Category: Lakeshore Humane Society Entry ",
        Some("/photos/rex.jpg"),
    );
    let e = parse_entry_page(DOMAIN, "https://contests.example.com/e/1", &contest, &html, 1_700_000_000);
    assert_eq!(e.dog, "Rex");
    assert_eq!(e.votes, 1234);
    assert_eq!(e.raised, 567);
    assert_eq!(e.category, "Lakeshore Humane Society Entry");
    assert_eq!(e.page, "https://contests.example.com/e/1");
    assert_eq!(e.picture, "https://contests.example.com/photos/rex.jpg");
    assert_eq!(e.timestamp, 1_700_000_000);
    assert!(e.contest == contest);
}

#[test]
fn entry_page_with_unreadable_fields_defaults() {
    let contest = Contest::new("A", "a", 0, 15);
    let html = "<html><body><p>under maintenance</p></body></html>";
    let e = parse_entry_page(DOMAIN, "u", &contest, html, 3);
    assert_eq!(e.dog, "");
    assert_eq!(e.votes, 0);
    assert_eq!(e.raised, 0);
    assert_eq!(e.category, "");
    assert_eq!(e.picture, DOMAIN);
}

#[test]
fn missing_picture_source_gives_domain_only() {
    let contest = Contest::new("A", "a", 0, 15);
    let html = entry_page("Rex", "3", "4", "", None);
    let e = parse_entry_page(DOMAIN, "u", &contest, &html, 3);
    assert_eq!(e.picture, DOMAIN);
    assert_eq!(e.votes, 3);
}

#[test]
fn urls_are_built_from_domain_and_page() {
    let contest = Contest::new("A", "newtopdogneenahfall2022", 0, 15);
    assert_eq!(contest_url(DOMAIN, &contest), "https://contests.example.com/newtopdogneenahfall2022");
    assert_eq!(search_url(DOMAIN, &contest), "https://contests.example.com/newtopdogneenahfall2022/search");
}

#[test]
fn entry_links_are_capped_and_skip_missing_addresses() {
    let contest = Contest::new("A", "a", 0, 3);
    let html = search_page(&[Some("/e/1"), None, Some("/e/2"), Some("/e/3"), Some("/e/4")], "5");
    let links = entry_links(DOMAIN, &contest, &html);
    assert_eq!(
        links,
        vec![
            "https://contests.example.com/e/1".to_string(),
            "https://contests.example.com/e/2".to_string()
        ]
    );
}

#[test]
fn entry_links_beyond_leaderboard_are_all_taken() {
    let contest = Contest::new("A", "a", 0, 15);
    let html = search_page(&[Some("/e/1"), Some("/e/2")], "2");
    assert_eq!(entry_links(DOMAIN, &contest, &html).len(), 2);
}

#[test]
fn failed_entry_pages_are_skipped_in_order() {
    let contest = Contest::new("A", "a", 0, 15);
    let pages = vec![
        FetchedPage { url: "u1".to_string(), html: Some(entry_page("One", "10", "1", "", None)), timestamp: 1 },
        FetchedPage { url: "u2".to_string(), html: None, timestamp: 2 },
        FetchedPage { url: "u3".to_string(), html: Some(entry_page("Three", "30", "3", "", None)), timestamp: 3 },
    ];
    let entries = entries_from_pages(DOMAIN, &contest, &pages);
    assert_eq!(entries.len(), 2);
    assert_eq!(entries[0].dog, "One");
    assert_eq!(entries[0].page, "u1");
    assert_eq!(entries[1].dog, "Three");
    assert_eq!(entries[1].votes, 30);
    assert_eq!(entries[1].timestamp, 3);
}

#[test]
fn contest_pages_give_aggregates() {
    let contest = Contest::new("A", "a", 40, 15);
    let main = "<html><body><div id=\"ContentPlaceHolder_divFundraisingMeter\">\
                <div class=\"raised\"><span>$12,345</span></div>\
                <div class=\"goal\"><span>Goal: $20,000</span></div></div></body></html>";
    let search = search_page(&[], "87 entries");
    assert_eq!(parse_entry_count(&search), 87);
    let d = parse_contest_pages(&contest, main, &search, 9);
    assert_eq!(d.raised, 12345);
    assert_eq!(d.goal, 20000);
    assert_eq!(d.total_entries, 87);
    assert_eq!(d.champ_day, 40);
    assert_eq!(d.timestamp, 9);
    assert!(d.contest == contest);
}
