//! Entrants: one scraped leaderboard entry and its CSV projection.

use vstd::prelude::*;

use crate::contest::{Contest, ContestView};

verus! {

/// One entrant as scraped from its entry page.
#[derive(Debug, Clone, Eq)]
pub struct EntryData {
    /// The entrant's name.
    pub dog: String,
    /// Votes received; this is the ranking score.
    pub votes: usize,
    /// Amount raised, which votes do not track one for one.
    pub raised: usize,
    /// The contest the entrant was crawled under.
    pub contest: Contest,
    /// Free-text category, used to match the entrant to a contest.
    pub category: String,
    /// The entry page's address.
    pub page: String,
    /// The entrant's picture address.
    pub picture: String,
    /// When this data was captured, in seconds since the epoch.
    pub timestamp: i64,
}

pub struct EntryDataView {
    pub dog: Seq<char>,
    pub votes: usize,
    pub raised: usize,
    pub contest: ContestView,
    pub category: Seq<char>,
    pub page: Seq<char>,
    pub picture: Seq<char>,
    pub timestamp: i64,
}

impl View for EntryData {
    type V = EntryDataView;

    open spec fn view(&self) -> EntryDataView {
        EntryDataView {
            dog: self.dog@,
            votes: self.votes,
            raised: self.raised,
            contest: self.contest@,
            category: self.category@,
            page: self.page@,
            picture: self.picture@,
            timestamp: self.timestamp,
        }
    }
}

pub open spec fn entries_view(s: Seq<EntryData>) -> Seq<EntryDataView> {
    s.map_values(|e: EntryData| e@)
}

/// An entrant with its capture time cleared.
pub open spec fn untimed(e: EntryDataView) -> EntryDataView {
    EntryDataView { timestamp: 0, ..e }
}

pub open spec fn untimed_all(s: Seq<EntryDataView>) -> Seq<EntryDataView> {
    s.map_values(|e: EntryDataView| untimed(e))
}

impl PartialEq for EntryData {
    fn eq(&self, o: &EntryData) -> (r: bool) {
        self.dog == o.dog && self.votes == o.votes && self.raised == o.raised && self.contest
            == o.contest && self.category == o.category && self.page == o.page && self.picture
            == o.picture && self.timestamp == o.timestamp
    }
}

impl vstd::std_specs::cmp::PartialEqSpecImpl for EntryData {
    open spec fn obeys_eq_spec() -> bool {
        true
    }

    open spec fn eq_spec(&self, o: &EntryData) -> bool {
        &&& self.dog@ == o.dog@
        &&& self.votes == o.votes
        &&& self.raised == o.raised
        &&& self.contest@.same_contest(o.contest@)
        &&& self.category@ == o.category@
        &&& self.page@ == o.page@
        &&& self.picture@ == o.picture@
        &&& self.timestamp == o.timestamp
    }
}

impl EntryData {
    /// A field-by-field copy.
    pub fn copied(&self) -> (r: EntryData)
        ensures
            r@ == self@,
    {
        EntryData {
            dog: self.dog.clone(),
            votes: self.votes,
            raised: self.raised,
            contest: self.contest.copied(),
            category: self.category.clone(),
            page: self.page.clone(),
            picture: self.picture.clone(),
            timestamp: self.timestamp,
        }
    }
}

/// An entrant flattened for a CSV row.
#[derive(Debug, Clone, Eq)]
pub struct EntryDataCSV {
    pub display_name: String,
    pub gogophoto_contest_page: String,
    pub dog: String,
    pub votes: usize,
    pub entry_url: String,
    pub picture: String,
    pub timestamp: i64,
}

pub struct EntryDataCSVView {
    pub display_name: Seq<char>,
    pub gogophoto_contest_page: Seq<char>,
    pub dog: Seq<char>,
    pub votes: usize,
    pub entry_url: Seq<char>,
    pub picture: Seq<char>,
    pub timestamp: i64,
}

impl View for EntryDataCSV {
    type V = EntryDataCSVView;

    open spec fn view(&self) -> EntryDataCSVView {
        EntryDataCSVView {
            display_name: self.display_name@,
            gogophoto_contest_page: self.gogophoto_contest_page@,
            dog: self.dog@,
            votes: self.votes,
            entry_url: self.entry_url@,
            picture: self.picture@,
            timestamp: self.timestamp,
        }
    }
}

impl PartialEq for EntryDataCSV {
    fn eq(&self, o: &EntryDataCSV) -> (r: bool) {
        self.display_name == o.display_name && self.gogophoto_contest_page
            == o.gogophoto_contest_page && self.dog == o.dog && self.votes == o.votes
            && self.entry_url == o.entry_url && self.picture == o.picture && self.timestamp
            == o.timestamp
    }
}

impl vstd::std_specs::cmp::PartialEqSpecImpl for EntryDataCSV {
    open spec fn obeys_eq_spec() -> bool {
        true
    }

    open spec fn eq_spec(&self, o: &EntryDataCSV) -> bool {
        self@ == o@
    }
}

/// The CSV projection of an entrant: the contest inlined as name and page,
/// amount raised and category left out.
pub open spec fn entry_csv_view(e: EntryDataView) -> EntryDataCSVView {
    EntryDataCSVView {
        display_name: e.contest.display_name,
        gogophoto_contest_page: e.contest.page,
        dog: e.dog,
        votes: e.votes,
        entry_url: e.page,
        picture: e.picture,
        timestamp: e.timestamp,
    }
}

impl EntryDataCSV {
    pub fn from_entry(entry: &EntryData) -> (r: EntryDataCSV)
        ensures
            r@ == entry_csv_view(entry@),
    {
        EntryDataCSV {
            display_name: entry.contest.display_name.clone(),
            gogophoto_contest_page: entry.contest.page.clone(),
            dog: entry.dog.clone(),
            votes: entry.votes,
            entry_url: entry.page.clone(),
            picture: entry.picture.clone(),
            timestamp: entry.timestamp,
        }
    }
}

} // verus!
