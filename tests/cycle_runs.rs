use oshkosh_kiwanis_web_crawler::contest::{Contest, ContestData, Contests};
use oshkosh_kiwanis_web_crawler::cycle::{assemble_cycle, encode_cycle};
use oshkosh_kiwanis_web_crawler::entry::EntryData;
use oshkosh_kiwanis_web_crawler::reconcile::reconcile;
use oshkosh_kiwanis_web_crawler::scrape::{entries_from_pages, entry_links, FetchedPage};
use oshkosh_kiwanis_web_crawler::snapshot::{contests_csv, entries_csv, leaderboard_csv};

const DOMAIN: &str = "https://contests.example.com";

fn entrant(dog: &str, votes: usize, raised: usize, category: &str, contest: &Contest) -> EntryData {
    EntryData {
        dog: dog.to_string(),
        votes,
        raised,
        contest: contest.clone(),
        category: category.to_string(),
        page: format!("{}/e/{}", DOMAIN, dog),
        picture: format!("{}/p/{}.jpg", DOMAIN, dog),
        timestamp: 1_700_000_000,
    }
}

fn record(contest: &Contest, champ_day: usize) -> ContestData {
    ContestData { contest: contest.clone(), goal: 100, raised: 10, total_entries: 3, champ_day, timestamp: 5 }
}

fn lakeshore() -> Contest {
    Contests::get_all()[0].clone()
}

#[test]
fn bonus_of_matched_category_is_added() {
    let lake = lakeshore();
    let neenah = Contests::get_all()[2].clone();
    let mut contests = vec![record(&neenah, 0), record(&lake, 0)];
    let previous = vec![
        entrant("rex", 1, 50, "Lakeshore Humane Society Entry", &lake),
        entrant("fido", 1, 70, "", &lake),
    ];
    reconcile(&mut contests, &previous);
    assert_eq!(contests[1].champ_day, 50);
    assert_eq!(contests[0].champ_day, 0);
}

#[test]
fn bonus_accumulates_from_baseline_and_skips_unmatched() {
    let lake = lakeshore();
    let mut contests = vec![record(&lake, 25)];
    let previous = vec![
        entrant("a", 1, 10, "lakeshore", &lake),
        entrant("b", 1, 20, "LAKESHORE team", &lake),
        entrant("c", 1, 400, "Unknown Rescue", &lake),
        entrant("d", 1, 800, "Neenah", &lake),
    ];
    reconcile(&mut contests, &previous);
    assert_eq!(contests[0].champ_day, 55);
    assert_eq!(contests[0].raised, 10);
    assert_eq!(contests[0].goal, 100);
}

#[test]
fn bonus_saturates_at_largest_amount() {
    let lake = lakeshore();
    let mut contests = vec![record(&lake, usize::MAX - 5)];
    let previous = vec![entrant("a", 1, 10, "lakeshore", &lake)];
    reconcile(&mut contests, &previous);
    assert_eq!(contests[0].champ_day, usize::MAX);
}

#[test]
fn failed_contest_aggregate_aborts_cycle() {
    let a = Contest::new("A", "a", 0, 2);
    let entries = vec![Some(vec![entrant("x", 1, 1, "", &a)])];
    let contests = vec![Some(record(&a, 0)), None];
    assert!(assemble_cycle(&entries, &contests, &None).is_none());
}

#[test]
fn failed_leaderboard_crawl_aborts_cycle() {
    let a = Contest::new("A", "a", 0, 2);
    let entries = vec![Some(vec![entrant("x", 1, 1, "", &a)]), None];
    let contests = vec![Some(record(&a, 0))];
    assert!(assemble_cycle(&entries, &contests, &None).is_none());
}

fn page(votes: usize) -> String {
    format!(
        "<html><body><form id=\"form1\"><div class=\"main\"><div class=\"mainBody\"><div><h1>dog{}</h1></div></div></div></form>\
         <h3 class=\"viewEntryVotes\">{} Votes</h3></body></html>",
        votes, votes
    )
}

fn search(links: &[&str]) -> String {
    let body: String = links
        .iter()
        .map(|h| format!("<div class=\"searchEntryCont\"><a class=\"searchEntry\" href=\"{}\">x</a></div>", h))
        .collect();
    format!("<html><body><div id=\"ContentPlaceHolder_upPanel\">{}</div></body></html>", body)
}

fn crawl(contest: &Contest, links_html: &str, votes: &[usize], ts: i64) -> Vec<EntryData> {
    let links = entry_links(DOMAIN, contest, links_html);
    let pages: Vec<FetchedPage> = links
        .iter()
        .zip(votes.iter())
        .map(|(u, v)| FetchedPage { url: u.clone(), html: Some(page(*v)), timestamp: ts })
        .collect();
    entries_from_pages(DOMAIN, contest, &pages)
}

#[test]
fn two_contests_end_to_end() {
    let a = Contest::new("A", "a", 0, 2);
    let b = Contest::new("B", "b", 0, 1);
    let ea = crawl(&a, &search(&["/a/1", "/a/2", "/a/3"]), &[10, 30], 1);
    let eb = crawl(&b, &search(&["/b/1", "/b/2"]), &[20], 1);
    assert_eq!(ea.len(), 2);
    assert_eq!(eb.len(), 1);
    let d = assemble_cycle(&vec![Some(ea), Some(eb)], &vec![Some(record(&a, 0)), Some(record(&b, 0))], &None)
        .unwrap();
    let ranked: Vec<(String, usize)> = d.ranked.iter().map(|e| (e.contest.page.clone(), e.votes)).collect();
    assert_eq!(ranked, vec![("a".to_string(), 30), ("b".to_string(), 20), ("a".to_string(), 10)]);
    assert_eq!(d.ranked[0].page, "https://contests.example.com/a/2");
    let top: Vec<usize> = d.leaderboard.iter().map(|e| e.votes).collect();
    assert_eq!(top, vec![30, 20, 10]);
    assert_eq!(d.contests.len(), 2);
}

#[test]
fn same_pages_give_same_output_but_for_timestamps() {
    let a = Contest::new("A", "a", 0, 3);
    let run = |ts: i64| {
        let ea = crawl(&a, &search(&["/a/1", "/a/2", "/a/3"]), &[5, 7, 5], ts);
        let d = assemble_cycle(&vec![Some(ea)], &vec![Some(record(&a, 0))], &None).unwrap();
        let files = encode_cycle(&d).unwrap();
        (String::from_utf8(files.ranked).unwrap(), String::from_utf8(files.leaderboard).unwrap())
    };
    let (r1, l1) = run(111);
    let (r2, l2) = run(222);
    assert_eq!(r1.replace("111", "T"), r2.replace("222", "T"));
    assert_eq!(l1.replace("111", "T"), l2.replace("222", "T"));
    assert_ne!(r1, r2);
}

#[test]
fn entries_csv_has_header_and_rows() {
    let a = Contest::new("A", "a", 0, 2);
    let entries = vec![entrant("rex", 30, 1, "", &a), entrant("fido", 10, 1, "", &a)];
    let csv = String::from_utf8(entries_csv(&entries).unwrap()).unwrap();
    assert_eq!(
        csv,
        "display_name,contest_page,dog_name,votes,entry_url,picture_url,timestamp\n\
         A,a,rex,30,https://contests.example.com/e/rex,https://contests.example.com/p/rex.jpg,1700000000\n\
         A,a,fido,10,https://contests.example.com/e/fido,https://contests.example.com/p/fido.jpg,1700000000\n"
    );
}

#[test]
fn csv_fields_are_quoted_where_needed() {
    let a = Contest::new("Paws, \"Inc\"", "a", 0, 2);
    let mut e = entrant("rex", 3, 1, "", &a);
    e.timestamp = -4;
    let csv = String::from_utf8(entries_csv(&vec![e]).unwrap()).unwrap();
    assert!(csv.ends_with(
        "\"Paws, \"\"Inc\"\"\",a,rex,3,https://contests.example.com/e/rex,https://contests.example.com/p/rex.jpg,-4\n"
    ));
}

#[test]
fn empty_entrant_list_gives_empty_csv() {
    assert_eq!(entries_csv(&Vec::new()).unwrap(), Vec::<u8>::new());
}

#[test]
fn leaderboard_csv_is_prefix_of_full_csv() {
    let a = Contest::new("A", "a", 0, 30);
    let entries: Vec<EntryData> = (0..20).map(|i| entrant(&format!("d{}", i), 100 - i, 1, "", &a)).collect();
    let full = entries_csv(&entries).unwrap();
    let top = leaderboard_csv(&entries).unwrap();
    assert!(full.starts_with(&top));
    assert!(top.len() < full.len());
    let text = String::from_utf8(top).unwrap();
    assert_eq!(text.lines().count(), 17);
    assert!(text.lines().last().unwrap().starts_with("A,a,d15,"));
}

#[test]
fn contests_csv_has_header_and_rows() {
    let a = Contest::new("A", "a", 0, 2);
    let csv = String::from_utf8(contests_csv(&vec![record(&a, 75)]).unwrap()).unwrap();
    assert_eq!(
        csv,
        "display_name,page,goal,raised,total_entries,bonus_day_amount,timestamp\nA,a,100,10,3,75,5\n"
    );
}

#[test]
fn cycle_reconciles_previous_snapshot() {
    let lake = lakeshore();
    let entries = vec![Some(vec![entrant("x", 4, 4, "", &lake)])];
    let contests = vec![Some(record(&lake, 0))];
    let previous = Some(vec![
        entrant("rex", 1, 50, "Lakeshore Humane Society Entry", &lake),
        entrant("fido", 1, 70, "", &lake),
    ]);
    let d = assemble_cycle(&entries, &contests, &previous).unwrap();
    assert_eq!(d.contests[0].champ_day, 50);
    let d = assemble_cycle(&entries, &contests, &None).unwrap();
    assert_eq!(d.contests[0].champ_day, 0);
}
