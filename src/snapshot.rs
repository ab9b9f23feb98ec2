//! CSV snapshots of the ranked entrants, the global leaderboard and the
//! contest records.

use vstd::prelude::*;
use vstd::utf8::encode_utf8;

use crate::contest::{contest_csv_view, ContestData, ContestDataCSV, ContestDataCSVView};
use crate::entry::{entries_view, entry_csv_view, EntryData, EntryDataCSV, EntryDataCSVView, EntryDataView};
use crate::rank::{global_leaderboard, LEADERBOARD_SIZE};
use crate::reconcile::contests_view;

verus! {

/// The bytes that the csv crate writes for one record with these fields,
/// terminator included; none where it reports an error.
pub uninterp spec fn csv_record(fields: Seq<Seq<u8>>) -> Option<Seq<u8>>;

pub open spec fn opt_bytes_view(o: Option<Vec<u8>>) -> Option<Seq<u8>> {
    match o {
        Some(b) => Some(b@),
        None => None,
    }
}

pub open spec fn fields_view(fields: Seq<Vec<u8>>) -> Seq<Seq<u8>> {
    fields.map_values(|f: Vec<u8>| f@)
}

/// Relies on csv: `Writer::write_record` writes one record to a fresh
/// in-memory writer, and `Writer::into_inner` flushes it and hands the bytes back.
#[verifier::external_body]
fn encode_csv_record(fields: &Vec<Vec<u8>>) -> (r: Option<Vec<u8>>)
    ensures
        opt_bytes_view(r) == csv_record(fields_view(fields@)),
{
    let mut w = csv::Writer::from_writer(Vec::new());
    match w.write_record(fields) {
        Ok(()) => w.into_inner().ok(),
        Err(_) => None,
    }
}

/// The decimal digits of `n` as ASCII bytes, without leading zeros.
pub open spec fn decimal_text(n: nat) -> Seq<u8>
    decreases n,
{
    if n < 10 {
        seq![(48 + n) as u8]
    } else {
        decimal_text(n / 10).push((48 + n % 10) as u8)
    }
}

/// An `i64` in decimal, with a minus sign when negative.
pub open spec fn signed_text(n: i64) -> Seq<u8> {
    if n < 0 {
        seq![45u8] + decimal_text((-n) as nat)
    } else {
        decimal_text(n as nat)
    }
}

pub fn decimal(n: u64) -> (r: Vec<u8>)
    ensures
        r@ == decimal_text(n as nat),
    decreases n,
{
    if n < 10 {
        let mut r: Vec<u8> = Vec::new();
        r.push((48 + n) as u8);
        assert(r@ =~= seq![(48 + n) as u8]);
        r
    } else {
        let mut r = decimal(n / 10);
        r.push((48 + n % 10) as u8);
        r
    }
}

pub fn signed_decimal(n: i64) -> (r: Vec<u8>)
    ensures
        r@ == signed_text(n),
{
    if n < 0 {
        let magnitude: u64 = if n == i64::MIN {
            9223372036854775808u64
        } else {
            (-n) as u64
        };
        let digits = decimal(magnitude);
        let mut r: Vec<u8> = Vec::new();
        r.push(45u8);
        let mut i: usize = 0;
        while i < digits.len()
            invariant
                i <= digits@.len(),
                r@ == seq![45u8] + digits@.take(i as int),
            decreases digits@.len() - i,
        {
            r.push(digits[i]);
            assert(seq![45u8] + digits@.take(i + 1) =~= (seq![45u8] + digits@.take(i as int)).push(
                digits@[i as int],
            ));
            i = i + 1;
        }
        assert(digits@.take(digits@.len() as int) =~= digits@);
        r
    } else {
        decimal(n as u64)
    }
}

/// The bytes of all records, each as the csv crate writes it, one after the
/// other; none if any record fails.
pub open spec fn csv_lines(records: Seq<Seq<Seq<u8>>>) -> Option<Seq<u8>>
    decreases records.len(),
{
    if records.len() == 0 {
        Some(Seq::empty())
    } else {
        match (csv_lines(records.drop_last()), csv_record(records.last())) {
            (Some(a), Some(b)) => Some(a + b),
            _ => None,
        }
    }
}

/// A CSV document: the header record before the first row; nothing at all
/// where there is no row.
pub open spec fn csv_document(header: Seq<Seq<u8>>, rows: Seq<Seq<Seq<u8>>>) -> Option<Seq<u8>> {
    if rows.len() == 0 {
        Some(Seq::empty())
    } else {
        csv_lines(seq![header] + rows)
    }
}

pub open spec fn entry_header() -> Seq<Seq<u8>> {
    seq![
        encode_utf8("display_name"@),
        encode_utf8("contest_page"@),
        encode_utf8("dog_name"@),
        encode_utf8("votes"@),
        encode_utf8("entry_url"@),
        encode_utf8("picture_url"@),
        encode_utf8("timestamp"@),
    ]
}

pub open spec fn entry_fields(c: EntryDataCSVView) -> Seq<Seq<u8>> {
    seq![
        encode_utf8(c.display_name),
        encode_utf8(c.gogophoto_contest_page),
        encode_utf8(c.dog),
        decimal_text(c.votes as nat),
        encode_utf8(c.entry_url),
        encode_utf8(c.picture),
        signed_text(c.timestamp),
    ]
}

pub open spec fn entry_rows(entries: Seq<EntryDataView>) -> Seq<Seq<Seq<u8>>> {
    entries.map_values(|e: EntryDataView| entry_fields(entry_csv_view(e)))
}

/// The entrant CSV document for `entries`, in their order.
pub open spec fn entries_csv_text(entries: Seq<EntryDataView>) -> Option<Seq<u8>> {
    csv_document(entry_header(), entry_rows(entries))
}

pub open spec fn contest_header() -> Seq<Seq<u8>> {
    seq![
        encode_utf8("display_name"@),
        encode_utf8("page"@),
        encode_utf8("goal"@),
        encode_utf8("raised"@),
        encode_utf8("total_entries"@),
        encode_utf8("bonus_day_amount"@),
        encode_utf8("timestamp"@),
    ]
}

pub open spec fn contest_fields(c: ContestDataCSVView) -> Seq<Seq<u8>> {
    seq![
        encode_utf8(c.display_name),
        encode_utf8(c.page),
        decimal_text(c.goal as nat),
        decimal_text(c.raised as nat),
        decimal_text(c.total_entries as nat),
        decimal_text(c.champ_day as nat),
        signed_text(c.timestamp),
    ]
}

/// The contest CSV document for `contests`, in their order.
pub open spec fn contests_csv_text(contests: Seq<crate::contest::ContestDataView>) -> Option<Seq<u8>> {
    csv_document(
        contest_header(),
        contests.map_values(|d: crate::contest::ContestDataView| contest_fields(contest_csv_view(d))),
    )
}

fn text_field(s: &String) -> (r: Vec<u8>)
    ensures
        r@ == encode_utf8(s@),
{
    s.as_str().as_bytes_vec()
}

fn entry_record(c: &EntryDataCSV) -> (r: Vec<Vec<u8>>)
    ensures
        fields_view(r@) == entry_fields(c@),
{
    let mut r: Vec<Vec<u8>> = Vec::new();
    r.push(text_field(&c.display_name));
    r.push(text_field(&c.gogophoto_contest_page));
    r.push(text_field(&c.dog));
    r.push(decimal(c.votes as u64));
    r.push(text_field(&c.entry_url));
    r.push(text_field(&c.picture));
    r.push(signed_decimal(c.timestamp));
    assert(fields_view(r@) =~= entry_fields(c@));
    r
}

fn contest_record(c: &ContestDataCSV) -> (r: Vec<Vec<u8>>)
    ensures
        fields_view(r@) == contest_fields(c@),
{
    let mut r: Vec<Vec<u8>> = Vec::new();
    r.push(text_field(&c.display_name));
    r.push(text_field(&c.page));
    r.push(decimal(c.goal as u64));
    r.push(decimal(c.raised as u64));
    r.push(decimal(c.total_entries as u64));
    r.push(decimal(c.champ_day as u64));
    r.push(signed_decimal(c.timestamp));
    assert(fields_view(r@) =~= contest_fields(c@));
    r
}

fn header_record(names: &[&str; 7]) -> (r: Vec<Vec<u8>>)
    ensures
        fields_view(r@) == Seq::new(7, |i: int| encode_utf8(names@[i]@)),
{
    let mut r: Vec<Vec<u8>> = Vec::new();
    let mut i: usize = 0;
    while i < 7
        invariant
            i <= 7,
            names@.len() == 7,
            fields_view(r@) == Seq::new(i as nat, |k: int| encode_utf8(names@[k]@)),
        decreases 7 - i,
    {
        let ghost prev = r@;
        let b = names[i].as_bytes_vec();
        assert(b@ == encode_utf8(names@[i as int]@));
        r.push(b);
        assert(fields_view(r@) =~= fields_view(prev).push(b@));
        assert(fields_view(r@) =~= Seq::new((i + 1) as nat, |k: int| encode_utf8(names@[k]@)));
        i = i + 1;
    }
    r
}

/// Writes the header, then each row, into one buffer; none if any record fails.
fn write_document(header: &Vec<Vec<u8>>, rows: &Vec<Vec<Vec<u8>>>, Ghost(hv): Ghost<Seq<Seq<u8>>>, Ghost(rv): Ghost<Seq<Seq<Seq<u8>>>>) -> (r: Option<Vec<u8>>)
    requires
        fields_view(header@) == hv,
        rows@.len() == rv.len(),
        forall|i: int| 0 <= i < rv.len() ==> fields_view(#[trigger] rows@[i]@) == rv[i],
    ensures
        opt_bytes_view(r) == csv_document(hv, rv),
{
    if rows.len() == 0 {
        let out: Vec<u8> = Vec::new();
        assert(out@ =~= Seq::<u8>::empty());
        return Some(out);
    }
    let ghost all = seq![hv] + rv;
    let mut out: Vec<u8> = match encode_csv_record(header) {
        Some(b) => b,
        None => {
            proof {
                lemma_csv_lines_fails_after(all, 1);
                assert(all.take(1).drop_last() =~= Seq::<Seq<Seq<u8>>>::empty());
            }
            return None;
        },
    };
    assert(all.take(1).drop_last() =~= Seq::<Seq<Seq<u8>>>::empty());
    assert(all.take(1).last() == hv);
    assert(csv_lines(Seq::<Seq<Seq<u8>>>::empty()) == Some(Seq::<u8>::empty()));
    assert(Seq::<u8>::empty() + out@ =~= out@);
    let mut i: usize = 0;
    while i < rows.len()
        invariant
            all == seq![hv] + rv,
            rows@.len() == rv.len(),
            forall|k: int| 0 <= k < rv.len() ==> fields_view(#[trigger] rows@[k]@) == rv[k],
            i <= rows@.len(),
            csv_lines(all.take(i + 1)) == Some(out@),
        decreases rows@.len() - i,
    {
        assert(all.take(i + 2).drop_last() =~= all.take(i + 1));
        assert(all.take(i + 2).last() == rv[i as int]);
        match encode_csv_record(&rows[i]) {
            Some(b) => {
                let mut b = b;
                out.append(&mut b);
            },
            None => {
                proof {
                    lemma_csv_lines_fails_after(all, i + 2);
                }
                return None;
            },
        }
        i = i + 1;
    }
    assert(all.take(rows@.len() + 1 as int) =~= all);
    Some(out)
}

/// Once a prefix of the records fails, the whole document fails.
proof fn lemma_csv_lines_fails_after(records: Seq<Seq<Seq<u8>>>, k: int)
    requires
        0 <= k <= records.len(),
        csv_lines(records.take(k)) is None,
    ensures
        csv_lines(records) is None,
    decreases records.len() - k,
{
    if k < records.len() {
        assert(records.take(k + 1).drop_last() =~= records.take(k));
        lemma_csv_lines_fails_after(records, k + 1);
    } else {
        assert(records.take(k) =~= records);
    }
}

/// The entrant CSV document: a header and one row per entrant, in order.
pub fn entries_csv(entries: &Vec<EntryData>) -> (r: Option<Vec<u8>>)
    ensures
        opt_bytes_view(r) == entries_csv_text(entries_view(entries@)),
{
    let header = header_record(
        &["display_name", "contest_page", "dog_name", "votes", "entry_url", "picture_url", "timestamp"],
    );
    let ghost hv = fields_view(header@);
    proof {
        assert(hv =~= entry_header());
    }
    let ghost rv = entry_rows(entries_view(entries@));
    let mut rows: Vec<Vec<Vec<u8>>> = Vec::new();
    let mut i: usize = 0;
    while i < entries.len()
        invariant
            rv == entry_rows(entries_view(entries@)),
            i <= entries@.len(),
            rows@.len() == i,
            forall|k: int| 0 <= k < i ==> fields_view(#[trigger] rows@[k]@) == rv[k],
        decreases entries@.len() - i,
    {
        let record = EntryDataCSV::from_entry(&entries[i]);
        rows.push(entry_record(&record));
        i = i + 1;
    }
    write_document(&header, &rows, Ghost(entry_header()), Ghost(rv))
}

/// The contest CSV document: a header and one row per contest record, in order.
pub fn contests_csv(contests: &Vec<ContestData>) -> (r: Option<Vec<u8>>)
    ensures
        opt_bytes_view(r) == contests_csv_text(contests_view(contests@)),
{
    let header = header_record(
        &["display_name", "page", "goal", "raised", "total_entries", "bonus_day_amount", "timestamp"],
    );
    let ghost hv = fields_view(header@);
    proof {
        assert(hv =~= contest_header());
    }
    let ghost rv = contests_view(contests@).map_values(
        |d: crate::contest::ContestDataView| contest_fields(contest_csv_view(d)),
    );
    let mut rows: Vec<Vec<Vec<u8>>> = Vec::new();
    let mut i: usize = 0;
    while i < contests.len()
        invariant
            rv == contests_view(contests@).map_values(
                |d: crate::contest::ContestDataView| contest_fields(contest_csv_view(d)),
            ),
            i <= contests@.len(),
            rows@.len() == i,
            forall|k: int| 0 <= k < i ==> fields_view(#[trigger] rows@[k]@) == rv[k],
        decreases contests@.len() - i,
    {
        let record = ContestDataCSV::from_contest_data(&contests[i]);
        rows.push(contest_record(&record));
        i = i + 1;
    }
    write_document(&header, &rows, Ghost(contest_header()), Ghost(rv))
}

pub open spec fn leaderboard_len(n: nat) -> int {
    if n < LEADERBOARD_SIZE {
        n as int
    } else {
        LEADERBOARD_SIZE as int
    }
}

/// The global leaderboard CSV document: the first `LEADERBOARD_SIZE` ranked
/// entrants, or all of them where there are fewer.
pub fn leaderboard_csv(ranked: &Vec<EntryData>) -> (r: Option<Vec<u8>>)
    ensures
        opt_bytes_view(r) == entries_csv_text(
            entries_view(ranked@).take(leaderboard_len(ranked@.len())),
        ),
{
    let top = global_leaderboard(ranked);
    entries_csv(&top)
}

proof fn lemma_csv_lines_prefix(records: Seq<Seq<Seq<u8>>>, m: int)
    requires
        0 <= m <= records.len(),
        csv_lines(records) is Some,
    ensures
        csv_lines(records.take(m)) is Some,
        csv_lines(records.take(m))->Some_0.is_prefix_of(csv_lines(records)->Some_0),
    decreases records.len() - m,
{
    if m == records.len() {
        assert(records.take(m) =~= records);
    } else {
        lemma_csv_lines_prefix(records, m + 1);
        let longer = records.take(m + 1);
        assert(longer.drop_last() =~= records.take(m));
        let a = csv_lines(records.take(m))->Some_0;
        let whole = csv_lines(longer)->Some_0;
        assert(a.is_prefix_of(whole));
    }
}

/// Cutting the entrants after any number of them cuts their CSV document:
/// where the full document is written, the shorter one is written too, and
/// its bytes are a prefix of the full document's bytes.
pub proof fn lemma_entries_csv_prefix(entries: Seq<EntryDataView>, k: int)
    requires
        0 <= k <= entries.len(),
        entries_csv_text(entries) is Some,
    ensures
        entries_csv_text(entries.take(k)) is Some,
        entries_csv_text(entries.take(k))->Some_0.is_prefix_of(entries_csv_text(entries)->Some_0),
{
    let rows = entry_rows(entries);
    assert(entry_rows(entries.take(k)) =~= rows.take(k));
    if k > 0 {
        let all = seq![entry_header()] + rows;
        assert(seq![entry_header()] + rows.take(k) =~= all.take(k + 1));
        lemma_csv_lines_prefix(all, k + 1);
    }
}

/// The global leaderboard file holds exactly the first `min(16, N)` entrants
/// of the ranked list, and its bytes are a prefix of the full ranked file's
/// bytes: header and rows alike.
pub proof fn lemma_leaderboard_csv_is_prefix(ranked: Seq<EntryDataView>)
    requires
        entries_csv_text(ranked) is Some,
    ensures
        entries_csv_text(ranked.take(leaderboard_len(ranked.len()))) is Some,
        entries_csv_text(ranked.take(leaderboard_len(ranked.len())))->Some_0.is_prefix_of(
            entries_csv_text(ranked)->Some_0,
        ),
{
    lemma_entries_csv_prefix(ranked, leaderboard_len(ranked.len()));
}

} // verus!
