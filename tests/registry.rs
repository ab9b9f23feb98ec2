use oshkosh_kiwanis_web_crawler::contest::{CategoryRule, Contest, ContestData, ContestDataCSV, Contests};

#[test]
fn registry_lists_six_contests_in_order() {
    let all = Contests::get_all();
    assert_eq!(all.len(), 6);
    assert_eq!(all[0].display_name, "Lakeshore Humane Society's NEW Top Dog Fall 2022");
    assert_eq!(all[0].page, "newtopdoglakeshorefall2022");
    assert_eq!(all[5].page, "newtopdogsandipawsfall2022");
    for c in &all {
        assert_eq!(c.champ_day, 0);
        assert_eq!(c.num_dogs, 15);
    }
}

#[test]
fn category_resolves_case_insensitively() {
    let c = Contests::from_category("Lakeshore Humane Society Entry").unwrap();
    assert_eq!(c.page, "newtopdoglakeshorefall2022");
    let c = Contests::from_category("MISFIT MUTTS").unwrap();
    assert_eq!(c.page, "newtopdogmisfitfall2022");
    let c = Contests::from_category("Team Sandi Paws").unwrap();
    assert_eq!(c.page, "newtopdogsandipawsfall2022");
}

#[test]
fn unmatched_category_resolves_to_none() {
    assert!(Contests::from_category("").is_none());
    assert!(Contests::from_category("Some Other Shelter").is_none());
    assert!(Contests::from_category("Oshkosh Area Humane Society").is_none());
}

#[test]
fn first_matching_rule_wins() {
    let c = Contests::from_category("Neenah and Lakeshore").unwrap();
    assert_eq!(c.page, "newtopdoglakeshorefall2022");
    let rules = vec![
        CategoryRule { fragment: "shelter".to_string(), contest: Contest::new("A", "a", 0, 1) },
        CategoryRule { fragment: "big shelter".to_string(), contest: Contest::new("B", "b", 0, 1) },
    ];
    let c = Contests::match_category(&rules, "Big Shelter").unwrap();
    assert_eq!(c.page, "a");
    assert!(Contests::match_category(&rules, "rescue").is_none());
}

#[test]
fn contests_compare_by_name_and_page() {
    assert!(Contest::new("A", "a", 0, 15) == Contest::new("A", "a", 100, 3));
    assert!(Contest::new("A", "a", 0, 15) != Contest::new("A", "b", 0, 15));
}

#[test]
fn contest_csv_record_inlines_contest() {
    let data = ContestData {
        contest: Contest::new("Neenah", "neenahpage", 5, 15),
        goal: 1000,
        raised: 250,
        total_entries: 42,
        champ_day: 75,
        timestamp: 1_700_000_000,
    };
    let rec = ContestDataCSV::from_contest_data(&data);
    assert_eq!(rec.display_name, "Neenah");
    assert_eq!(rec.page, "neenahpage");
    assert_eq!(rec.goal, 1000);
    assert_eq!(rec.raised, 250);
    assert_eq!(rec.total_entries, 42);
    assert_eq!(rec.champ_day, 75);
    assert_eq!(rec.timestamp, 1_700_000_000);
}
