//! One crawl cycle's decisions: gather every contest's results, abort the
//! cycle if any contest failed, reconcile, rank and encode the snapshot.

use vstd::prelude::*;

use crate::contest::{untimed_record, untimed_records, ContestData, ContestDataView};
use crate::entry::{entries_view, untimed_all, EntryData, EntryDataView};
use crate::rank::{global_leaderboard, is_ranking_of, lemma_ranking_ignores_time, rank};
use crate::reconcile::{contests_view, is_reconciled, lemma_reconcile_ignores_time, reconcile};
use crate::snapshot::{
    contests_csv, contests_csv_text, entries_csv, entries_csv_text, leaderboard_len,
    opt_bytes_view,
};

verus! {

/// Every result is present: no crawl failed.
pub open spec fn all_crawled<A>(s: Seq<Option<A>>) -> bool {
    forall|i: int| 0 <= i < s.len() ==> (#[trigger] s[i]) is Some
}

pub open spec fn opt_entries_view(o: Option<Vec<EntryData>>) -> Option<Seq<EntryDataView>> {
    match o {
        Some(v) => Some(entries_view(v@)),
        None => None,
    }
}

pub open spec fn entry_results_view(s: Seq<Option<Vec<EntryData>>>) -> Seq<Option<Seq<EntryDataView>>> {
    s.map_values(|o: Option<Vec<EntryData>>| opt_entries_view(o))
}

pub open spec fn opt_contest_data_view(o: Option<ContestData>) -> Option<ContestDataView> {
    match o {
        Some(d) => Some(d@),
        None => None,
    }
}

pub open spec fn contest_results_view(s: Seq<Option<ContestData>>) -> Seq<Option<ContestDataView>> {
    s.map_values(|o: Option<ContestData>| opt_contest_data_view(o))
}

/// The entrants of all contests, contest after contest, each in its own order.
pub open spec fn joined_entries(s: Seq<Option<Seq<EntryDataView>>>) -> Seq<EntryDataView>
    decreases s.len(),
{
    if s.len() == 0 {
        Seq::empty()
    } else {
        joined_entries(s.drop_last()) + match s.last() {
            Some(v) => v,
            None => Seq::empty(),
        }
    }
}

/// The contest records that were crawled, in order.
pub open spec fn crawled_contests(s: Seq<Option<ContestDataView>>) -> Seq<ContestDataView> {
    s.map_values(|o: Option<ContestDataView>| o->Some_0)
}

/// The entrants of the previous snapshot; none where it could not be read.
pub open spec fn previous_entries(p: Option<Vec<EntryData>>) -> Seq<EntryDataView> {
    match p {
        Some(v) => entries_view(v@),
        None => Seq::empty(),
    }
}

/// What one cycle publishes: the ranked entrants, the global leaderboard and
/// the reconciled contest records.
pub struct CycleData {
    pub ranked: Vec<EntryData>,
    pub leaderboard: Vec<EntryData>,
    pub contests: Vec<ContestData>,
}

/// `d` is what a cycle publishes for these crawl results and this previous
/// snapshot.
pub open spec fn is_cycle_of(
    d: CycleData,
    entry_results: Seq<Option<Seq<EntryDataView>>>,
    contest_results: Seq<Option<ContestDataView>>,
    previous: Seq<EntryDataView>,
) -> bool {
    &&& all_crawled(entry_results)
    &&& all_crawled(contest_results)
    &&& is_ranking_of(entries_view(d.ranked@), joined_entries(entry_results))
    &&& entries_view(d.leaderboard@) == entries_view(d.ranked@).take(
        leaderboard_len(d.ranked@.len()),
    )
    &&& is_reconciled(crawled_contests(contest_results), previous, contests_view(d.contests@))
}

/// Crawl results with their capture times cleared.
pub open spec fn untimed_results(s: Seq<Option<Seq<EntryDataView>>>) -> Seq<Option<Seq<EntryDataView>>> {
    s.map_values(
        |o: Option<Seq<EntryDataView>>|
            match o {
                Some(v) => Some(untimed_all(v)),
                None => None,
            },
    )
}

pub open spec fn untimed_contest_results(s: Seq<Option<ContestDataView>>) -> Seq<Option<ContestDataView>> {
    s.map_values(
        |o: Option<ContestDataView>|
            match o {
                Some(d) => Some(untimed_record(d)),
                None => None,
            },
    )
}

proof fn lemma_joined_ignores_time(s1: Seq<Option<Seq<EntryDataView>>>, s2: Seq<Option<Seq<EntryDataView>>>)
    requires
        untimed_results(s1) == untimed_results(s2),
    ensures
        untimed_all(joined_entries(s1)) == untimed_all(joined_entries(s2)),
    decreases s1.len(),
{
    assert(s1.len() == untimed_results(s1).len());
    assert(s2.len() == untimed_results(s2).len());
    if s1.len() > 0 {
        assert(untimed_results(s1.drop_last()) =~= untimed_results(s1).drop_last());
        assert(untimed_results(s2.drop_last()) =~= untimed_results(s2).drop_last());
        lemma_joined_ignores_time(s1.drop_last(), s2.drop_last());
        assert(untimed_results(s1)[s1.len() - 1] == untimed_results(s2)[s2.len() - 1]);
        let l1 = match s1.last() {
            Some(v) => v,
            None => Seq::<EntryDataView>::empty(),
        };
        let l2 = match s2.last() {
            Some(v) => v,
            None => Seq::<EntryDataView>::empty(),
        };
        assert(untimed_all(l1) == untimed_all(l2));
        let j1 = joined_entries(s1.drop_last());
        let j2 = joined_entries(s2.drop_last());
        assert(untimed_all(j1 + l1) =~= untimed_all(j1) + untimed_all(l1));
        assert(untimed_all(j2 + l2) =~= untimed_all(j2) + untimed_all(l2));
    }
}

/// Two cycles over the same pages and the same previous entrants, each
/// captured at its own time, publish the same ranked entrants, leaderboard
/// and contest records but for their capture times.
pub proof fn lemma_cycle_ignores_time(
    d1: CycleData,
    er1: Seq<Option<Seq<EntryDataView>>>,
    cr1: Seq<Option<ContestDataView>>,
    p1: Seq<EntryDataView>,
    d2: CycleData,
    er2: Seq<Option<Seq<EntryDataView>>>,
    cr2: Seq<Option<ContestDataView>>,
    p2: Seq<EntryDataView>,
)
    requires
        is_cycle_of(d1, er1, cr1, p1),
        is_cycle_of(d2, er2, cr2, p2),
        untimed_results(er1) == untimed_results(er2),
        untimed_contest_results(cr1) == untimed_contest_results(cr2),
        untimed_all(p1) == untimed_all(p2),
    ensures
        untimed_all(entries_view(d1.ranked@)) == untimed_all(entries_view(d2.ranked@)),
        untimed_all(entries_view(d1.leaderboard@)) == untimed_all(entries_view(d2.leaderboard@)),
        untimed_records(contests_view(d1.contests@)) == untimed_records(contests_view(d2.contests@)),
{
    lemma_joined_ignores_time(er1, er2);
    let r1 = entries_view(d1.ranked@);
    let r2 = entries_view(d2.ranked@);
    lemma_ranking_ignores_time(r1, joined_entries(er1), r2, joined_entries(er2));
    assert(r1.len() == untimed_all(r1).len());
    assert(r2.len() == untimed_all(r2).len());
    assert(d1.ranked@.len() == d2.ranked@.len());
    let n = leaderboard_len(d1.ranked@.len());
    assert(untimed_all(r1.take(n)) =~= untimed_all(r1).take(n));
    assert(untimed_all(r2.take(n)) =~= untimed_all(r2).take(n));
    let c1 = crawled_contests(cr1);
    let c2 = crawled_contests(cr2);
    assert(cr1.len() == untimed_contest_results(cr1).len());
    assert(cr2.len() == untimed_contest_results(cr2).len());
    assert forall|k: int| 0 <= k < c1.len() implies #[trigger] untimed_records(c1)[k] == untimed_records(
        c2,
    )[k] by {
        assert(cr1[k] is Some);
        assert(cr2[k] is Some);
        assert(untimed_contest_results(cr1)[k] == untimed_contest_results(cr2)[k]);
    }
    assert(untimed_records(c1) =~= untimed_records(c2));
    lemma_reconcile_ignores_time(
        c1,
        p1,
        contests_view(d1.contests@),
        c2,
        p2,
        contests_view(d2.contests@),
    );
}

/// The cycle's results: nothing where any contest's entrants or aggregate
/// could not be crawled, so that the previous snapshot stays as it was;
/// otherwise the ranked entrants of all contests, the leaderboard, and the
/// contest records with the previous snapshot's bonus reconciled into them.
pub fn assemble_cycle(
    entry_results: &Vec<Option<Vec<EntryData>>>,
    contest_results: &Vec<Option<ContestData>>,
    previous: &Option<Vec<EntryData>>,
) -> (r: Option<CycleData>)
    ensures
        r is Some <==> all_crawled(entry_results@) && all_crawled(contest_results@),
        r is Some ==> is_cycle_of(
            r->Some_0,
            entry_results_view(entry_results@),
            contest_results_view(contest_results@),
            previous_entries(*previous),
        ),
{
    let ghost ev = entry_results_view(entry_results@);
    let mut joined: Vec<EntryData> = Vec::new();
    let mut i: usize = 0;
    while i < entry_results.len()
        invariant
            ev == entry_results_view(entry_results@),
            i <= entry_results@.len(),
            all_crawled(entry_results@.take(i as int)),
            entries_view(joined@) == joined_entries(ev.take(i as int)),
        decreases entry_results@.len() - i,
    {
        assert(ev.take(i + 1).drop_last() =~= ev.take(i as int));
        assert(ev.take(i + 1).last() == opt_entries_view(entry_results@[i as int]));
        match &entry_results[i] {
            Some(v) => {
                let ghost before = entries_view(joined@);
                let mut k: usize = 0;
                while k < v.len()
                    invariant
                        k <= v@.len(),
                        entries_view(joined@) == before + entries_view(v@).take(k as int),
                    decreases v@.len() - k,
                {
                    let ghost prev = joined@;
                    joined.push(v[k].copied());
                    assert(entries_view(joined@) =~= entries_view(prev).push(v@[k as int]@));
                    assert(entries_view(v@).take(k + 1) =~= entries_view(v@).take(k as int).push(
                        v@[k as int]@,
                    ));
                    assert(entries_view(joined@) =~= before + entries_view(v@).take(k + 1));
                    k = k + 1;
                }
                assert(entries_view(v@).take(v@.len() as int) =~= entries_view(v@));
                assert forall|t: int| 0 <= t < i + 1 implies (#[trigger] entry_results@.take(
                    i + 1,
                )[t]) is Some by {
                    if t < i {
                        assert(entry_results@.take(i + 1)[t] == entry_results@.take(i as int)[t]);
                    }
                }
            },
            None => {
                assert(!all_crawled(entry_results@)) by {
                    assert(entry_results@[i as int] is None);
                }
                return None;
            },
        }
        i = i + 1;
    }
    assert(entry_results@.take(entry_results@.len() as int) =~= entry_results@);
    assert(ev.take(ev.len() as int) =~= ev);
    let ghost cv = contest_results_view(contest_results@);
    let mut contests: Vec<ContestData> = Vec::new();
    let mut j: usize = 0;
    while j < contest_results.len()
        invariant
            cv == contest_results_view(contest_results@),
            all_crawled(entry_results@),
            j <= contest_results@.len(),
            all_crawled(contest_results@.take(j as int)),
            contests_view(contests@) == crawled_contests(cv.take(j as int)),
        decreases contest_results@.len() - j,
    {
        match &contest_results[j] {
            Some(d) => {
                let ghost prev = contests@;
                let c = ContestData {
                    contest: d.contest.copied(),
                    goal: d.goal,
                    raised: d.raised,
                    total_entries: d.total_entries,
                    champ_day: d.champ_day,
                    timestamp: d.timestamp,
                };
                assert(c@ == d@);
                contests.push(c);
                assert(cv[j as int] == Some(d@));
                assert(contests_view(contests@) =~= contests_view(prev).push(d@));
                assert(crawled_contests(cv.take(j + 1)) =~= crawled_contests(cv.take(j as int)).push(d@));
                assert(contests_view(contests@) =~= crawled_contests(cv.take(j + 1)));
                assert forall|t: int| 0 <= t < j + 1 implies (#[trigger] contest_results@.take(
                    j + 1,
                )[t]) is Some by {
                    if t < j {
                        assert(contest_results@.take(j + 1)[t] == contest_results@.take(j as int)[t]);
                    }
                }
            },
            None => {
                assert(!all_crawled(contest_results@)) by {
                    assert(contest_results@[j as int] is None);
                }
                return None;
            },
        }
        j = j + 1;
    }
    assert(contest_results@.take(contest_results@.len() as int) =~= contest_results@);
    assert(cv.take(cv.len() as int) =~= cv);
    match previous {
        Some(p) => reconcile(&mut contests, p),
        None => {
            let empty: Vec<EntryData> = Vec::new();
            assert(entries_view(empty@) =~= Seq::<EntryDataView>::empty());
            reconcile(&mut contests, &empty);
        },
    }
    let ranked = rank(joined);
    let leaderboard = global_leaderboard(&ranked);
    Some(CycleData { ranked, leaderboard, contests })
}

/// The three CSV files of a snapshot.
pub struct CsvFiles {
    pub ranked: Vec<u8>,
    pub leaderboard: Vec<u8>,
    pub contests: Vec<u8>,
}

/// Encodes a cycle's CSV files; nothing where any of them cannot be encoded.
pub fn encode_cycle(d: &CycleData) -> (r: Option<CsvFiles>)
    ensures
        r is Some <==> entries_csv_text(entries_view(d.ranked@)) is Some && entries_csv_text(
            entries_view(d.leaderboard@),
        ) is Some && contests_csv_text(contests_view(d.contests@)) is Some,
        r is Some ==> {
            &&& entries_csv_text(entries_view(d.ranked@)) == Some(r->Some_0.ranked@)
            &&& entries_csv_text(entries_view(d.leaderboard@)) == Some(r->Some_0.leaderboard@)
            &&& contests_csv_text(contests_view(d.contests@)) == Some(r->Some_0.contests@)
        },
{
    let ranked = entries_csv(&d.ranked);
    let leaderboard = entries_csv(&d.leaderboard);
    let contests = contests_csv(&d.contests);
    match (ranked, leaderboard, contests) {
        (Some(a), Some(b), Some(c)) => Some(CsvFiles { ranked: a, leaderboard: b, contests: c }),
        _ => None,
    }
}

} // verus!
