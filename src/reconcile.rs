//! Bonus-day reconciliation: the previous cycle's entrants add what they
//! raised to the bonus-day amount of the contest their category names.

use vstd::prelude::*;

use crate::contest::{
    category_contest, untimed_record, untimed_records, Contest, ContestData, ContestDataView, ContestView,
    Contests,
};
use crate::entry::{entries_view, untimed, untimed_all, EntryData, EntryDataView};

verus! {

pub open spec fn contests_view(s: Seq<ContestData>) -> Seq<ContestDataView> {
    s.map_values(|d: ContestData| d@)
}

/// The first index at or after `k` whose contest is the same contest as `c`.
pub open spec fn index_from(contests: Seq<ContestDataView>, c: ContestView, k: int) -> Option<int>
    decreases contests.len() - k,
{
    if k < 0 || k >= contests.len() {
        None
    } else if contests[k].contest.same_contest(c) {
        Some(k)
    } else {
        index_from(contests, c, k + 1)
    }
}

/// The index of the record an entrant's bonus goes to: the first record of
/// the contest its category resolves to. None for an empty category, a
/// category that resolves to no contest, or a contest with no record.
pub open spec fn bonus_target(contests: Seq<ContestDataView>, e: EntryDataView) -> Option<int> {
    if e.category.len() == 0 {
        None
    } else {
        match category_contest(e.category) {
            Some(c) => index_from(contests, c, 0),
            None => None,
        }
    }
}

/// What the entrants contribute to the record at index `j`.
pub open spec fn bonus_for(contests: Seq<ContestDataView>, entries: Seq<EntryDataView>, j: int) -> nat
    decreases entries.len(),
{
    if entries.len() == 0 {
        0
    } else {
        bonus_for(contests, entries.drop_last(), j) + if bonus_target(contests, entries.last())
            == Some(j) {
            entries.last().raised as nat
        } else {
            0
        }
    }
}

/// `d` with `bonus` added to its bonus-day amount, held at the largest `usize`.
pub open spec fn with_bonus(d: ContestDataView, bonus: nat) -> ContestDataView {
    ContestDataView {
        champ_day: if d.champ_day + bonus > usize::MAX {
            usize::MAX
        } else {
            (d.champ_day + bonus) as usize
        },
        ..d
    }
}

/// `after` is `before` with every entrant's bonus added to its target record.
pub open spec fn is_reconciled(
    before: Seq<ContestDataView>,
    entries: Seq<EntryDataView>,
    after: Seq<ContestDataView>,
) -> bool {
    &&& after.len() == before.len()
    &&& forall|j: int|
        0 <= j < before.len() ==> #[trigger] after[j] == with_bonus(
            before[j],
            bonus_for(before, entries, j),
        )
}

/// An entrant with an empty category adds nothing to any record.
pub proof fn lemma_empty_category_adds_nothing(
    contests: Seq<ContestDataView>,
    entries: Seq<EntryDataView>,
    e: EntryDataView,
    j: int,
)
    requires
        e.category.len() == 0,
    ensures
        bonus_for(contests, entries.push(e), j) == bonus_for(contests, entries, j),
{
    assert(entries.push(e).drop_last() =~= entries);
}

proof fn lemma_index_from_same_contests(
    b1: Seq<ContestDataView>,
    b2: Seq<ContestDataView>,
    c: ContestView,
    k: int,
)
    requires
        b1.len() == b2.len(),
        forall|t: int| 0 <= t < b1.len() ==> (#[trigger] b1[t]).contest == b2[t].contest,
    ensures
        index_from(b1, c, k) == index_from(b2, c, k),
    decreases b1.len() - k,
{
    if 0 <= k < b1.len() {
        assert(b1[k].contest == b2[k].contest);
        lemma_index_from_same_contests(b1, b2, c, k + 1);
    }
}

/// The bonus a record receives depends on the records' contests and on each
/// entrant's category and amount raised, not on any capture time.
proof fn lemma_bonus_ignores_time(
    b1: Seq<ContestDataView>,
    b2: Seq<ContestDataView>,
    e1: Seq<EntryDataView>,
    e2: Seq<EntryDataView>,
    j: int,
)
    requires
        untimed_records(b1) == untimed_records(b2),
        untimed_all(e1) == untimed_all(e2),
    ensures
        bonus_for(b1, e1, j) == bonus_for(b2, e2, j),
    decreases e1.len(),
{
    assert(b1.len() == untimed_records(b1).len());
    assert(b2.len() == untimed_records(b2).len());
    assert forall|t: int| 0 <= t < b1.len() implies (#[trigger] b1[t]).contest == b2[t].contest by {
        assert(untimed_records(b1)[t] == untimed_records(b2)[t]);
        assert(untimed_records(b1)[t] == untimed_record(b1[t]));
        assert(untimed_records(b2)[t] == untimed_record(b2[t]));
        assert(untimed_record(b1[t]).contest == b1[t].contest);
        assert(untimed_record(b2[t]).contest == b2[t].contest);
    }
    assert(e1.len() == untimed_all(e1).len());
    assert(e2.len() == untimed_all(e2).len());
    if e1.len() > 0 {
        assert(untimed_all(e1.drop_last()) =~= untimed_all(e1).drop_last());
        assert(untimed_all(e2.drop_last()) =~= untimed_all(e2).drop_last());
        lemma_bonus_ignores_time(b1, b2, e1.drop_last(), e2.drop_last(), j);
        let x1 = e1.last();
        let x2 = e2.last();
        assert(untimed_all(e1)[e1.len() - 1] == untimed_all(e2)[e2.len() - 1]);
        assert(untimed(x1) == untimed(x2));
        assert(x1.category == x2.category);
        assert(x1.raised == x2.raised);
        match category_contest(x1.category) {
            Some(c) => lemma_index_from_same_contests(b1, b2, c, 0),
            None => {},
        }
    }
}

/// Reconciling records that differ only in capture times, with previous
/// entrants that differ only in capture times, gives records that differ
/// only in capture times.
pub proof fn lemma_reconcile_ignores_time(
    b1: Seq<ContestDataView>,
    e1: Seq<EntryDataView>,
    a1: Seq<ContestDataView>,
    b2: Seq<ContestDataView>,
    e2: Seq<EntryDataView>,
    a2: Seq<ContestDataView>,
)
    requires
        is_reconciled(b1, e1, a1),
        is_reconciled(b2, e2, a2),
        untimed_records(b1) == untimed_records(b2),
        untimed_all(e1) == untimed_all(e2),
    ensures
        untimed_records(a1) == untimed_records(a2),
{
    assert(b1.len() == untimed_records(b1).len());
    assert(b2.len() == untimed_records(b2).len());
    assert forall|j: int| 0 <= j < a1.len() implies #[trigger] untimed_records(a1)[j] == untimed_records(
        a2,
    )[j] by {
        lemma_bonus_ignores_time(b1, b2, e1, e2, j);
        assert(untimed_records(b1)[j] == untimed_records(b2)[j]);
        assert(untimed_records(b1)[j] == untimed_record(b1[j]));
        assert(untimed_records(b2)[j] == untimed_record(b2[j]));
        assert(untimed_records(a1)[j] == untimed_record(a1[j]));
        assert(untimed_records(a2)[j] == untimed_record(a2[j]));
    }
    assert(untimed_records(a1) =~= untimed_records(a2));
}

fn find_contest(contests: &Vec<ContestData>, c: &Contest, Ghost(orig): Ghost<Seq<ContestDataView>>) -> (r:
    Option<usize>)
    requires
        orig.len() == contests@.len(),
        forall|k: int| 0 <= k < orig.len() ==> (#[trigger] orig[k]).contest == contests@[k].contest@,
    ensures
        match r {
            Some(j) => j < contests@.len() && index_from(orig, c@, 0) == Some(j as int),
            None => index_from(orig, c@, 0) is None,
        },
{
    let mut k: usize = 0;
    while k < contests.len()
        invariant
            orig.len() == contests@.len(),
            forall|t: int| 0 <= t < orig.len() ==> (#[trigger] orig[t]).contest == contests@[t].contest@,
            k <= contests@.len(),
            index_from(orig, c@, k as int) == index_from(orig, c@, 0),
        decreases contests@.len() - k,
    {
        if contests[k].contest == *c {
            return Some(k);
        }
        k = k + 1;
    }
    None
}

/// Adds what each previous entrant raised to the bonus-day amount of the
/// contest record its category resolves to. Entrants with an empty or
/// unmatched category, or whose contest has no record, add nothing.
pub fn reconcile(contests: &mut Vec<ContestData>, previous: &Vec<EntryData>)
    ensures
        is_reconciled(contests_view(old(contests)@), entries_view(previous@), contests_view(final(contests)@)),
{
    let ghost orig = contests_view(contests@);
    let ghost ev = entries_view(previous@);
    let mut i: usize = 0;
    while i < previous.len()
        invariant
            ev == entries_view(previous@),
            i <= previous@.len(),
            contests@.len() == orig.len(),
            forall|k: int| 0 <= k < orig.len() ==> (#[trigger] orig[k]).contest == contests@[k].contest@,
            forall|j: int|
                0 <= j < orig.len() ==> #[trigger] contests@[j]@ == with_bonus(
                    orig[j],
                    bonus_for(orig, ev.take(i as int), j),
                ),
        decreases previous@.len() - i,
    {
        let e = &previous[i];
        assert(ev.take(i + 1).drop_last() =~= ev.take(i as int));
        assert(ev.take(i + 1).last() == e@);
        let mut target: Option<usize> = None;
        if e.category.as_str().unicode_len() > 0 {
            match Contests::from_category(e.category.as_str()) {
                Some(c) => {
                    target = find_contest(contests, &c, Ghost(orig));
                },
                None => {},
            }
        }
        assert(match target {
            Some(j) => j < contests@.len() && bonus_target(orig, e@) == Some(j as int),
            None => bonus_target(orig, e@) is None,
        });
        match target {
            Some(j) => {
                let ghost before = contests@;
                let amount = contests[j].champ_day.saturating_add(e.raised);
                contests[j].champ_day = amount;
                assert forall|k: int| 0 <= k < orig.len() implies #[trigger] contests@[k]@ == with_bonus(
                    orig[k],
                    bonus_for(orig, ev.take(i + 1), k),
                ) by {
                    let b = bonus_for(orig, ev.take(i as int), k);
                    if k != j {
                        assert(contests@[k] == before[k]);
                        assert(bonus_for(orig, ev.take(i + 1), k) == b);
                    } else {
                        assert(bonus_for(orig, ev.take(i + 1), k) == b + e.raised);
                        assert(before[k]@ == with_bonus(orig[k], b));
                        assert(contests@[k]@ == ContestDataView { champ_day: amount, ..before[k]@ });
                    }
                }
            },
            None => {},
        }
        i = i + 1;
    }
    assert(ev.take(previous@.len() as int) =~= ev);
}

} // verus!
