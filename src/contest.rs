//! Contests: the registry of pages to crawl, matching of entry categories to
//! contests, and the per-contest aggregate record.

use vstd::prelude::*;

use crate::text::{contains, contains_seq};

verus! {

/// One fundraising contest, identified by its display name and page slug.
#[derive(Debug, Clone, Eq)]
pub struct Contest {
    pub display_name: String,
    pub page: String,
    /// Bonus-day amount the contest starts from.
    pub champ_day: usize,
    /// How many leaderboard entries are crawled.
    pub num_dogs: usize,
}

pub struct ContestView {
    pub display_name: Seq<char>,
    pub page: Seq<char>,
    pub champ_day: usize,
    pub num_dogs: usize,
}

impl ContestView {
    /// Contests are the same contest when display name and page agree.
    pub open spec fn same_contest(self, o: ContestView) -> bool {
        self.display_name == o.display_name && self.page == o.page
    }
}

impl View for Contest {
    type V = ContestView;

    open spec fn view(&self) -> ContestView {
        ContestView {
            display_name: self.display_name@,
            page: self.page@,
            champ_day: self.champ_day,
            num_dogs: self.num_dogs,
        }
    }
}

impl PartialEq for Contest {
    fn eq(&self, o: &Contest) -> (r: bool) {
        self.display_name == o.display_name && self.page == o.page
    }
}

impl vstd::std_specs::cmp::PartialEqSpecImpl for Contest {
    open spec fn obeys_eq_spec() -> bool {
        true
    }

    open spec fn eq_spec(&self, o: &Contest) -> bool {
        self@.same_contest(o@)
    }
}

impl Contest {
    pub fn new(display_name: &str, page: &str, champ_day: usize, num_dogs: usize) -> (r: Contest)
        ensures
            r@ == (ContestView {
                display_name: display_name@,
                page: page@,
                champ_day,
                num_dogs,
            }),
    {
        Contest {
            display_name: String::from_str(display_name),
            page: String::from_str(page),
            champ_day,
            num_dogs,
        }
    }

    /// A field-by-field copy.
    pub fn copied(&self) -> (r: Contest)
        ensures
            r@ == self@,
    {
        Contest {
            display_name: self.display_name.clone(),
            page: self.page.clone(),
            champ_day: self.champ_day,
            num_dogs: self.num_dogs,
        }
    }
}

pub open spec fn opt_contest_view(o: Option<Contest>) -> Option<ContestView> {
    match o {
        Some(c) => Some(c@),
        None => None,
    }
}

/// A contest of the registry: no bonus-day baseline, fifteen entries crawled.
pub open spec fn season_contest(display_name: Seq<char>, page: Seq<char>) -> ContestView {
    ContestView { display_name, page, champ_day: 0, num_dogs: 15 }
}

/// The contests crawled each cycle, in crawl order.
pub open spec fn registry() -> Seq<ContestView> {
    seq![
        season_contest("Lakeshore Humane Society's NEW Top Dog Fall 2022"@, "newtopdoglakeshorefall2022"@),
        season_contest("Misfit Mutts's NEW Top Dog Fall 2022"@, "newtopdogmisfitfall2022"@),
        season_contest("Neenah's NEW Top Dog Fall 2022"@, "newtopdogneenahfall2022"@),
        season_contest("Mit Liebe's NEW Top Dog Fall 2022"@, "newtopdogmitliebefall2022"@),
        season_contest("Oshkosh's NEW Top Dog Fall 2022"@, "newtopdogoahsfall2022"@),
        season_contest("Sandi Paws's NEW Top Dog Fall 2022"@, "newtopdogsandipawsfall2022"@),
    ]
}

/// The lowercase fragments that assign a category to the registry's contests,
/// index for index.
pub open spec fn category_fragments() -> Seq<Seq<char>> {
    seq!["lakeshore"@, "misfit mutt"@, "neenah"@, "mit liebe"@, "oshskosh"@, "sandi paw"@]
}

/// A category-matching rule: a category holding `fragment` belongs to `contest`.
pub struct CategoryRule {
    pub fragment: String,
    pub contest: Contest,
}

pub struct CategoryRuleView {
    pub fragment: Seq<char>,
    pub contest: ContestView,
}

impl View for CategoryRule {
    type V = CategoryRuleView;

    open spec fn view(&self) -> CategoryRuleView {
        CategoryRuleView { fragment: self.fragment@, contest: self.contest@ }
    }
}

pub open spec fn rules_view(rules: Seq<CategoryRule>) -> Seq<CategoryRuleView> {
    rules.map_values(|r: CategoryRule| r@)
}

/// The registry's rules: each fragment paired with its contest, in order.
pub open spec fn season_rules() -> Seq<CategoryRuleView> {
    Seq::new(6, |i: int| CategoryRuleView { fragment: category_fragments()[i], contest: registry()[i] })
}

/// The contest of the first rule whose fragment occurs in `s`; none if no rule does.
pub open spec fn first_match(rules: Seq<CategoryRuleView>, s: Seq<char>) -> Option<ContestView>
    decreases rules.len(),
{
    if rules.len() == 0 {
        None
    } else if contains_seq(s, rules[0].fragment) {
        Some(rules[0].contest)
    } else {
        first_match(rules.drop_first(), s)
    }
}

/// The lowercase form of a text, as `str::to_lowercase` gives it.
pub uninterp spec fn lower_of(s: Seq<char>) -> Seq<char>;

/// Relies on `str::to_lowercase`: the Unicode lowercase mapping, which depends
/// on the text alone.
#[verifier::external_body]
fn lowercase(s: &str) -> (r: String)
    ensures
        r@ == lower_of(s@),
{
    s.to_lowercase()
}

/// The contest a category text resolves to under the registry's rules.
pub open spec fn category_contest(category: Seq<char>) -> Option<ContestView> {
    first_match(season_rules(), lower_of(category))
}

/// The registry: the contests that are crawled.
pub struct Contests {}

impl Contests {
    /// The contests crawled each cycle, in crawl order.
    pub fn get_all() -> (r: Vec<Contest>)
        ensures
            r@.map_values(|c: Contest| c@) == registry(),
    {
        let mut r: Vec<Contest> = Vec::new();
        r.push(Contest::new("Lakeshore Humane Society's NEW Top Dog Fall 2022", "newtopdoglakeshorefall2022", 0, 15));
        r.push(Contest::new("Misfit Mutts's NEW Top Dog Fall 2022", "newtopdogmisfitfall2022", 0, 15));
        r.push(Contest::new("Neenah's NEW Top Dog Fall 2022", "newtopdogneenahfall2022", 0, 15));
        r.push(Contest::new("Mit Liebe's NEW Top Dog Fall 2022", "newtopdogmitliebefall2022", 0, 15));
        r.push(Contest::new("Oshkosh's NEW Top Dog Fall 2022", "newtopdogoahsfall2022", 0, 15));
        r.push(Contest::new("Sandi Paws's NEW Top Dog Fall 2022", "newtopdogsandipawsfall2022", 0, 15));
        assert(r@.map_values(|c: Contest| c@) =~= registry());
        r
    }

    /// The registry's category rules, in the order they are tried.
    pub fn category_rules() -> (r: Vec<CategoryRule>)
        ensures
            rules_view(r@) == season_rules(),
    {
        let contests = Contests::get_all();
        let ghost cv = contests@.map_values(|c: Contest| c@);
        assert(registry().len() == 6);
        assert(cv.len() == contests@.len());
        let mut r: Vec<CategoryRule> = Vec::new();
        let fragments = ["lakeshore", "misfit mutt", "neenah", "mit liebe", "oshskosh", "sandi paw"];
        let mut i: usize = 0;
        while i < 6
            invariant
                cv == registry(),
                contests@.len() == 6,
                cv.len() == 6,
                forall|k: int| 0 <= k < 6 ==> (#[trigger] cv[k]) == contests@[k]@,
                fragments@.len() == 6,
                forall|k: int| 0 <= k < 6 ==> (#[trigger] fragments@[k])@ == category_fragments()[k],
                i <= 6,
                r@.len() == i,
                forall|k: int| 0 <= k < i ==> (#[trigger] r@[k])@ == season_rules()[k],
            decreases 6 - i,
        {
            r.push(CategoryRule {
                fragment: String::from_str(fragments[i]),
                contest: contests[i].copied(),
            });
            i = i + 1;
        }
        assert(rules_view(r@) =~= season_rules());
        r
    }

    /// The contest of the first rule whose fragment occurs in the lowercased
    /// category; none where no rule matches.
    pub fn match_category(rules: &Vec<CategoryRule>, category: &str) -> (r: Option<Contest>)
        ensures
            opt_contest_view(r) == first_match(rules_view(rules@), lower_of(category@)),
    {
        let lowered = lowercase(category);
        let ghost all = rules_view(rules@);
        assert(all.subrange(0, all.len() as int) =~= all);
        let mut i: usize = 0;
        while i < rules.len()
            invariant
                all == rules_view(rules@),
                lowered@ == lower_of(category@),
                i <= rules@.len(),
                first_match(all.subrange(i as int, all.len() as int), lowered@) == first_match(
                    all,
                    lowered@,
                ),
            decreases rules@.len() - i,
        {
            let ghost rest = all.subrange(i as int, all.len() as int);
            assert(all.len() == rules@.len());
            assert(rest.len() > 0);
            assert(rest[0] == rules@[i as int]@);
            let found = contains(lowered.as_str(), rules[i].fragment.as_str());
            if found {
                return Some(rules[i].contest.copied());
            }
            assert(rest.drop_first() =~= all.subrange(i + 1, all.len() as int));
            i = i + 1;
        }
        None
    }

    /// The registry contest that a category text names, by the first matching
    /// fragment of its lowercase form; none where no fragment matches.
    pub fn from_category(category: &str) -> (r: Option<Contest>)
        ensures
            opt_contest_view(r) == category_contest(category@),
    {
        let rules = Contests::category_rules();
        Contests::match_category(&rules, category)
    }
}

/// A contest's aggregate figures for one cycle.
#[derive(Debug, Clone)]
pub struct ContestData {
    pub contest: Contest,
    pub goal: usize,
    pub raised: usize,
    /// Total entries in the contest.
    pub total_entries: usize,
    /// Bonus-day amount: the baseline plus what reconciliation adds.
    pub champ_day: usize,
    /// When this data was captured, in seconds since the epoch.
    pub timestamp: i64,
}

pub struct ContestDataView {
    pub contest: ContestView,
    pub goal: usize,
    pub raised: usize,
    pub total_entries: usize,
    pub champ_day: usize,
    pub timestamp: i64,
}

impl View for ContestData {
    type V = ContestDataView;

    open spec fn view(&self) -> ContestDataView {
        ContestDataView {
            contest: self.contest@,
            goal: self.goal,
            raised: self.raised,
            total_entries: self.total_entries,
            champ_day: self.champ_day,
            timestamp: self.timestamp,
        }
    }
}

/// A contest record with its capture time cleared.
pub open spec fn untimed_record(d: ContestDataView) -> ContestDataView {
    ContestDataView { timestamp: 0, ..d }
}

pub open spec fn untimed_records(s: Seq<ContestDataView>) -> Seq<ContestDataView> {
    s.map_values(|d: ContestDataView| untimed_record(d))
}

/// A contest record flattened for a CSV row.
#[derive(Debug, Clone, Eq)]
pub struct ContestDataCSV {
    pub display_name: String,
    pub page: String,
    pub goal: usize,
    pub raised: usize,
    pub total_entries: usize,
    pub champ_day: usize,
    pub timestamp: i64,
}

pub struct ContestDataCSVView {
    pub display_name: Seq<char>,
    pub page: Seq<char>,
    pub goal: usize,
    pub raised: usize,
    pub total_entries: usize,
    pub champ_day: usize,
    pub timestamp: i64,
}

impl View for ContestDataCSV {
    type V = ContestDataCSVView;

    open spec fn view(&self) -> ContestDataCSVView {
        ContestDataCSVView {
            display_name: self.display_name@,
            page: self.page@,
            goal: self.goal,
            raised: self.raised,
            total_entries: self.total_entries,
            champ_day: self.champ_day,
            timestamp: self.timestamp,
        }
    }
}

impl PartialEq for ContestDataCSV {
    fn eq(&self, o: &ContestDataCSV) -> (r: bool) {
        self.display_name == o.display_name && self.page == o.page && self.goal == o.goal
            && self.raised == o.raised && self.total_entries == o.total_entries && self.champ_day
            == o.champ_day && self.timestamp == o.timestamp
    }
}

impl vstd::std_specs::cmp::PartialEqSpecImpl for ContestDataCSV {
    open spec fn obeys_eq_spec() -> bool {
        true
    }

    open spec fn eq_spec(&self, o: &ContestDataCSV) -> bool {
        self@ == o@
    }
}

/// The CSV projection of a contest record: the contest inlined as name and page.
pub open spec fn contest_csv_view(d: ContestDataView) -> ContestDataCSVView {
    ContestDataCSVView {
        display_name: d.contest.display_name,
        page: d.contest.page,
        goal: d.goal,
        raised: d.raised,
        total_entries: d.total_entries,
        champ_day: d.champ_day,
        timestamp: d.timestamp,
    }
}

impl ContestDataCSV {
    pub fn from_contest_data(data: &ContestData) -> (r: ContestDataCSV)
        ensures
            r@ == contest_csv_view(data@),
    {
        ContestDataCSV {
            display_name: data.contest.display_name.clone(),
            page: data.contest.page.clone(),
            goal: data.goal,
            raised: data.raised,
            total_entries: data.total_entries,
            champ_day: data.champ_day,
            timestamp: data.timestamp,
        }
    }
}

} // verus!
