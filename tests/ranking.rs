use oshkosh_kiwanis_web_crawler::contest::Contest;
use oshkosh_kiwanis_web_crawler::entry::{EntryData, EntryDataCSV};
use oshkosh_kiwanis_web_crawler::rank::{global_leaderboard, rank};

fn entrant(dog: &str, votes: usize) -> EntryData {
    EntryData {
        dog: dog.to_string(),
        votes,
        raised: votes,
        contest: Contest::new("C", "c", 0, 15),
        category: String::new(),
        page: format!("https://example.com/{}", dog),
        picture: String::new(),
        timestamp: 7,
    }
}

fn dogs(v: &[EntryData]) -> Vec<String> {
    v.iter().map(|e| e.dog.clone()).collect()
}

#[test]
fn rank_orders_by_votes_descending() {
    let ranked = rank(vec![entrant("a", 10), entrant("b", 30), entrant("c", 20)]);
    assert_eq!(dogs(&ranked), vec!["b", "c", "a"]);
}

#[test]
fn rank_keeps_input_order_on_ties() {
    let ranked = rank(vec![
        entrant("a", 5),
        entrant("b", 9),
        entrant("c", 5),
        entrant("d", 9),
        entrant("e", 5),
    ]);
    assert_eq!(dogs(&ranked), vec!["b", "d", "a", "c", "e"]);
}

#[test]
fn rank_of_empty_is_empty() {
    assert!(rank(Vec::new()).is_empty());
}

#[test]
fn leaderboard_takes_first_sixteen() {
    let entries: Vec<EntryData> = (0..20).map(|i| entrant(&format!("d{}", i), 100 - i)).collect();
    let ranked = rank(entries);
    let top = global_leaderboard(&ranked);
    assert_eq!(top.len(), 16);
    assert_eq!(dogs(&top), dogs(&ranked[..16]));
}

#[test]
fn leaderboard_of_short_list_is_whole_list() {
    let ranked = rank(vec![entrant("a", 1), entrant("b", 2), entrant("c", 3)]);
    let top = global_leaderboard(&ranked);
    assert_eq!(dogs(&top), vec!["c", "b", "a"]);
}

#[test]
fn entry_csv_record_inlines_contest() {
    let mut e = entrant("rex", 12);
    e.raised = 99;
    e.category = "Neenah".to_string();
    e.picture = "https://example.com/p.jpg".to_string();
    let rec = EntryDataCSV::from_entry(&e);
    assert_eq!(rec.display_name, "C");
    assert_eq!(rec.gogophoto_contest_page, "c");
    assert_eq!(rec.dog, "rex");
    assert_eq!(rec.votes, 12);
    assert_eq!(rec.entry_url, "https://example.com/rex");
    assert_eq!(rec.picture, "https://example.com/p.jpg");
    assert_eq!(rec.timestamp, 7);
}
