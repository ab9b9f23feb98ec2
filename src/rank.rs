//! Ranking entrants by votes and cutting the global leaderboard.

use vstd::prelude::*;

use crate::entry::{entries_view, untimed, untimed_all, EntryData, EntryDataView};

verus! {

/// How many of the ranked entrants make the global leaderboard.
pub const LEADERBOARD_SIZE: usize = 16;

/// Votes never increase along `s`.
pub open spec fn votes_descending(s: Seq<EntryDataView>) -> bool {
    forall|i: int, j: int| #![trigger s[i], s[j]] 0 <= i < j < s.len() ==> s[i].votes >= s[j].votes
}

/// The entrants of `s` with exactly `v` votes, in their order in `s`.
pub open spec fn with_votes(s: Seq<EntryDataView>, v: usize) -> Seq<EntryDataView>
    decreases s.len(),
{
    if s.len() == 0 {
        Seq::empty()
    } else if s.last().votes == v {
        with_votes(s.drop_last(), v).push(s.last())
    } else {
        with_votes(s.drop_last(), v)
    }
}

/// `out` is `inp` ranked by votes, highest first, entrants with equal votes
/// kept in their input order.
pub open spec fn is_ranking_of(out: Seq<EntryDataView>, inp: Seq<EntryDataView>) -> bool {
    &&& out.len() == inp.len()
    &&& votes_descending(out)
    &&& forall|v: usize| #[trigger] with_votes(out, v) == with_votes(inp, v)
}

proof fn lemma_with_votes_concat(a: Seq<EntryDataView>, b: Seq<EntryDataView>, v: usize)
    ensures
        with_votes(a + b, v) == with_votes(a, v) + with_votes(b, v),
    decreases b.len(),
{
    if b.len() == 0 {
        assert(a + b =~= a);
        assert(with_votes(a, v) + with_votes(b, v) =~= with_votes(a, v));
    } else {
        assert((a + b).drop_last() =~= a + b.drop_last());
        assert((a + b).last() == b.last());
        lemma_with_votes_concat(a, b.drop_last(), v);
        if b.last().votes == v {
            assert(with_votes(a, v) + with_votes(b.drop_last(), v).push(b.last()) =~= (with_votes(
                a,
                v,
            ) + with_votes(b.drop_last(), v)).push(b.last()));
        }
    }
}

proof fn lemma_with_votes_none(s: Seq<EntryDataView>, v: usize)
    requires
        forall|i: int| 0 <= i < s.len() ==> (#[trigger] s[i]).votes != v,
    ensures
        with_votes(s, v) == Seq::<EntryDataView>::empty(),
    decreases s.len(),
{
    if s.len() > 0 {
        assert(s.last() == s[s.len() - 1]);
        lemma_with_votes_none(s.drop_last(), v);
    }
}

proof fn lemma_with_votes_single(x: EntryDataView, v: usize)
    ensures
        with_votes(seq![x], v) == if x.votes == v {
            seq![x]
        } else {
            Seq::<EntryDataView>::empty()
        },
{
    let s = seq![x];
    assert(s.drop_last() =~= Seq::<EntryDataView>::empty());
    assert(s.last() == x);
    assert(with_votes(Seq::<EntryDataView>::empty(), v) == Seq::<EntryDataView>::empty());
    if x.votes == v {
        assert(Seq::<EntryDataView>::empty().push(x) =~= s);
    }
}

proof fn lemma_insert_keeps_order(out: Seq<EntryDataView>, x: EntryDataView, p: int)
    requires
        votes_descending(out),
        0 <= p <= out.len(),
        forall|j: int| 0 <= j < p ==> (#[trigger] out[j]).votes > x.votes,
        p < out.len() ==> out[p].votes <= x.votes,
    ensures
        votes_descending(out.insert(p, x)),
{
    let nout = out.insert(p, x);
    assert forall|i: int, j: int| #![trigger nout[i], nout[j]] 0 <= i < j < nout.len() implies nout[i].votes
        >= nout[j].votes by {
        if j < p {
            assert(nout[i] == out[i]);
            assert(nout[j] == out[j]);
        } else if j == p {
            assert(nout[i] == out[i]);
        } else {
            assert(nout[j] == out[j - 1]);
            assert(out[p].votes >= out[j - 1].votes);
            if i < p {
                assert(nout[i] == out[i]);
            } else if i > p {
                assert(nout[i] == out[i - 1]);
            }
        }
    }
}

proof fn lemma_insert_keeps_groups(
    out: Seq<EntryDataView>,
    suffix: Seq<EntryDataView>,
    x: EntryDataView,
    p: int,
    v: usize,
)
    requires
        with_votes(out, v) == with_votes(suffix, v),
        0 <= p <= out.len(),
        forall|j: int| 0 <= j < p ==> (#[trigger] out[j]).votes > x.votes,
    ensures
        with_votes(out.insert(p, x), v) == with_votes(seq![x] + suffix, v),
{
    let lo = out.subrange(0, p);
    let hi = out.subrange(p, out.len() as int);
    assert(out.insert(p, x) =~= (lo + seq![x]) + hi);
    assert(out =~= lo + hi);
    lemma_with_votes_concat(lo + seq![x], hi, v);
    lemma_with_votes_concat(lo, seq![x], v);
    lemma_with_votes_concat(lo, hi, v);
    lemma_with_votes_concat(seq![x], suffix, v);
    lemma_with_votes_single(x, v);
    if x.votes == v {
        assert forall|i: int| 0 <= i < lo.len() implies (#[trigger] lo[i]).votes != v by {
            assert(lo[i] == out[i]);
        }
        lemma_with_votes_none(lo, v);
        assert(with_votes(lo, v) + with_votes(hi, v) =~= with_votes(hi, v));
        assert(with_votes(lo, v) + seq![x] + with_votes(hi, v) =~= seq![x] + with_votes(hi, v));
    } else {
        assert(with_votes(lo, v) + Seq::<EntryDataView>::empty() =~= with_votes(lo, v));
        assert(Seq::<EntryDataView>::empty() + with_votes(suffix, v) =~= with_votes(suffix, v));
    }
}

/// Inserting `x` where the votes stop being higher than its own keeps a ranking.
proof fn lemma_insert_keeps_ranking(
    out: Seq<EntryDataView>,
    suffix: Seq<EntryDataView>,
    x: EntryDataView,
    p: int,
)
    requires
        is_ranking_of(out, suffix),
        0 <= p <= out.len(),
        forall|j: int| 0 <= j < p ==> (#[trigger] out[j]).votes > x.votes,
        p < out.len() ==> out[p].votes <= x.votes,
    ensures
        is_ranking_of(out.insert(p, x), seq![x] + suffix),
{
    lemma_insert_keeps_order(out, x, p);
    assert forall|v: usize| #[trigger] with_votes(out.insert(p, x), v) == with_votes(
        seq![x] + suffix,
        v,
    ) by {
        lemma_insert_keeps_groups(out, suffix, x, p, v);
    }
}

proof fn lemma_with_votes_member(s: Seq<EntryDataView>, v: usize)
    requires
        with_votes(s, v).len() > 0,
    ensures
        exists|k: int| 0 <= k < s.len() && (#[trigger] s[k]).votes == v,
    decreases s.len(),
{
    if s.last().votes == v {
        assert(s[s.len() - 1].votes == v);
    } else {
        lemma_with_votes_member(s.drop_last(), v);
        let k = choose|k: int| 0 <= k < s.drop_last().len() && (#[trigger] s.drop_last()[k]).votes == v;
        assert(s[k] == s.drop_last()[k]);
    }
}

proof fn lemma_with_votes_empty(s: Seq<EntryDataView>)
    requires
        forall|v: usize| #[trigger] with_votes(s, v).len() == 0,
    ensures
        s.len() == 0,
{
    if s.len() > 0 {
        assert(with_votes(s, s.last().votes).len() > 0);
    }
}

/// Two lists ordered by votes, highest first, with the same entrants at each
/// vote count in the same order, are the same list.
pub proof fn lemma_groups_determine_order(o1: Seq<EntryDataView>, o2: Seq<EntryDataView>)
    requires
        votes_descending(o1),
        votes_descending(o2),
        forall|v: usize| #[trigger] with_votes(o1, v) == with_votes(o2, v),
    ensures
        o1 == o2,
    decreases o1.len() + o2.len(),
{
    if o1.len() == 0 {
        assert forall|v: usize| #[trigger] with_votes(o2, v).len() == 0 by {
            assert(with_votes(o1, v) == with_votes(o2, v));
        }
        lemma_with_votes_empty(o2);
        assert(o1 =~= o2);
    } else if o2.len() == 0 {
        assert forall|v: usize| #[trigger] with_votes(o1, v).len() == 0 by {
            assert(with_votes(o1, v) == with_votes(o2, v));
        }
        lemma_with_votes_empty(o1);
    } else {
        let x1 = o1.last();
        let x2 = o2.last();
        assert(with_votes(o1, x1.votes).len() > 0);
        assert(with_votes(o2, x1.votes) == with_votes(o1, x1.votes));
        lemma_with_votes_member(o2, x1.votes);
        let k2 = choose|k: int| 0 <= k < o2.len() && (#[trigger] o2[k]).votes == x1.votes;
        if k2 < o2.len() - 1 {
            assert(o2[k2].votes >= o2[o2.len() - 1].votes);
        }
        assert(with_votes(o2, x2.votes).len() > 0);
        assert(with_votes(o1, x2.votes) == with_votes(o2, x2.votes));
        lemma_with_votes_member(o1, x2.votes);
        let k1 = choose|k: int| 0 <= k < o1.len() && (#[trigger] o1[k]).votes == x2.votes;
        if k1 < o1.len() - 1 {
            assert(o1[k1].votes >= o1[o1.len() - 1].votes);
        }
        let w = x1.votes;
        assert(x2.votes == w);
        let p1 = o1.drop_last();
        let p2 = o2.drop_last();
        assert(with_votes(o1, w) == with_votes(p1, w).push(x1));
        assert(with_votes(o2, w) == with_votes(p2, w).push(x2));
        assert(x1 == with_votes(o1, w).last());
        assert(x2 == with_votes(o2, w).last());
        assert(with_votes(p1, w) =~= with_votes(o1, w).drop_last());
        assert(with_votes(p2, w) =~= with_votes(o2, w).drop_last());
        assert forall|v: usize| #[trigger] with_votes(p1, v) == with_votes(p2, v) by {
            assert(with_votes(o1, v) == with_votes(o2, v));
        }
        assert forall|i: int, j: int| #![trigger p1[i], p1[j]] 0 <= i < j < p1.len() implies p1[i].votes
            >= p1[j].votes by {
            assert(o1[i].votes >= o1[j].votes);
        }
        assert forall|i: int, j: int| #![trigger p2[i], p2[j]] 0 <= i < j < p2.len() implies p2[i].votes
            >= p2[j].votes by {
            assert(o2[i].votes >= o2[j].votes);
        }
        lemma_groups_determine_order(p1, p2);
        assert(o1 =~= p1.push(x1));
        assert(o2 =~= p2.push(x2));
    }
}

/// A list has one ranking: any two rankings of the same entrants are equal.
pub proof fn lemma_ranking_unique(o1: Seq<EntryDataView>, o2: Seq<EntryDataView>, inp: Seq<EntryDataView>)
    requires
        is_ranking_of(o1, inp),
        is_ranking_of(o2, inp),
    ensures
        o1 == o2,
{
    assert forall|v: usize| #[trigger] with_votes(o1, v) == with_votes(o2, v) by {
        assert(with_votes(o1, v) == with_votes(inp, v));
        assert(with_votes(o2, v) == with_votes(inp, v));
    }
    lemma_groups_determine_order(o1, o2);
}

proof fn lemma_with_votes_untimed(s: Seq<EntryDataView>, v: usize)
    ensures
        with_votes(untimed_all(s), v) == untimed_all(with_votes(s, v)),
    decreases s.len(),
{
    if s.len() > 0 {
        assert(untimed_all(s).drop_last() =~= untimed_all(s.drop_last()));
        assert(untimed_all(s).last() == untimed(s.last()));
        lemma_with_votes_untimed(s.drop_last(), v);
        if s.last().votes == v {
            assert(untimed_all(with_votes(s.drop_last(), v).push(s.last())) =~= untimed_all(
                with_votes(s.drop_last(), v),
            ).push(untimed(s.last())));
        }
    }
}

/// Rankings of lists that differ only in capture times differ only in
/// capture times.
pub proof fn lemma_ranking_ignores_time(
    o1: Seq<EntryDataView>,
    i1: Seq<EntryDataView>,
    o2: Seq<EntryDataView>,
    i2: Seq<EntryDataView>,
)
    requires
        is_ranking_of(o1, i1),
        is_ranking_of(o2, i2),
        untimed_all(i1) == untimed_all(i2),
    ensures
        untimed_all(o1) == untimed_all(o2),
{
    let u1 = untimed_all(o1);
    let u2 = untimed_all(o2);
    assert forall|v: usize| #[trigger] with_votes(u1, v) == with_votes(u2, v) by {
        lemma_with_votes_untimed(o1, v);
        lemma_with_votes_untimed(o2, v);
        lemma_with_votes_untimed(i1, v);
        lemma_with_votes_untimed(i2, v);
        assert(with_votes(o1, v) == with_votes(i1, v));
        assert(with_votes(o2, v) == with_votes(i2, v));
    }
    assert forall|i: int, j: int| #![trigger u1[i], u1[j]] 0 <= i < j < u1.len() implies u1[i].votes
        >= u1[j].votes by {
        assert(o1[i].votes >= o1[j].votes);
    }
    assert forall|i: int, j: int| #![trigger u2[i], u2[j]] 0 <= i < j < u2.len() implies u2[i].votes
        >= u2[j].votes by {
        assert(o2[i].votes >= o2[j].votes);
    }
    lemma_groups_determine_order(u1, u2);
}

/// Ranks entrants by votes, highest first; entrants with equal votes keep
/// their relative order.
pub fn rank(entries: Vec<EntryData>) -> (r: Vec<EntryData>)
    ensures
        is_ranking_of(entries_view(r@), entries_view(entries@)),
{
    let ghost orig = entries_view(entries@);
    let mut rest = entries;
    let mut out: Vec<EntryData> = Vec::new();
    assert(orig.subrange(orig.len() as int, orig.len() as int) =~= Seq::<EntryDataView>::empty());
    assert(entries_view(out@) =~= Seq::<EntryDataView>::empty());
    assert(entries_view(rest@) =~= orig.subrange(0, orig.len() as int));
    while rest.len() > 0
        invariant
            rest@.len() <= orig.len(),
            entries_view(rest@) == orig.subrange(0, rest@.len() as int),
            is_ranking_of(entries_view(out@), orig.subrange(rest@.len() as int, orig.len() as int)),
        decreases rest@.len(),
    {
        let ghost k = rest@.len() as int;
        let ghost ov = entries_view(out@);
        let ghost before = rest@;
        let x = rest.pop().unwrap();
        assert(x@ == orig[k - 1]) by {
            assert(entries_view(before)[k - 1] == before[k - 1]@);
        }
        let mut p: usize = 0;
        while p < out.len() && out[p].votes > x.votes
            invariant
                p <= out@.len(),
                ov == entries_view(out@),
                forall|j: int| 0 <= j < p ==> (#[trigger] ov[j]).votes > x.votes,
            decreases out@.len() - p,
        {
            p = p + 1;
        }
        proof {
            lemma_insert_keeps_ranking(ov, orig.subrange(k, orig.len() as int), x@, p as int);
            assert(seq![x@] + orig.subrange(k, orig.len() as int) =~= orig.subrange(
                k - 1,
                orig.len() as int,
            ));
            assert(entries_view(rest@) =~= orig.subrange(0, k - 1));
        }
        out.insert(p, x);
        assert(entries_view(out@) =~= ov.insert(p as int, x@));
    }
    assert(orig.subrange(0, orig.len() as int) =~= orig);
    out
}

/// The first `LEADERBOARD_SIZE` entrants of a ranked list, or all of them
/// where there are fewer.
pub fn global_leaderboard(ranked: &Vec<EntryData>) -> (r: Vec<EntryData>)
    ensures
        entries_view(r@) == entries_view(ranked@).take(
            if ranked@.len() < LEADERBOARD_SIZE {
                ranked@.len() as int
            } else {
                LEADERBOARD_SIZE as int
            },
        ),
{
    let n = if ranked.len() < LEADERBOARD_SIZE {
        ranked.len()
    } else {
        LEADERBOARD_SIZE
    };
    let mut r: Vec<EntryData> = Vec::new();
    let mut i: usize = 0;
    while i < n
        invariant
            n <= ranked@.len(),
            i <= n,
            entries_view(r@) == entries_view(ranked@).take(i as int),
        decreases n - i,
    {
        let c = ranked[i].copied();
        let ghost prev = r@;
        r.push(c);
        assert(entries_view(r@) =~= entries_view(prev).push(c@));
        assert(entries_view(r@) =~= entries_view(ranked@).take(i + 1));
        i = i + 1;
    }
    r
}

} // verus!
