//! Tolerant text rules applied to what is selected from a page.

use vstd::prelude::*;

verus! {

pub open spec fn is_decimal_digit(c: char) -> bool {
    '0' <= c && c <= '9'
}

/// A character kept by the numeric filter: a decimal digit or the decimal point.
pub open spec fn is_numeric_char(c: char) -> bool {
    is_decimal_digit(c) || c == '.'
}

/// The characters of `s` that the numeric filter keeps, in order.
pub open spec fn numeric_chars(s: Seq<char>) -> Seq<char>
    decreases s.len(),
{
    if s.len() == 0 {
        Seq::empty()
    } else if is_numeric_char(s.last()) {
        numeric_chars(s.drop_last()).push(s.last())
    } else {
        numeric_chars(s.drop_last())
    }
}

pub open spec fn digit_value(c: char) -> nat {
    (c as u32 - '0' as u32) as nat
}

/// The value of a string of decimal digits.
pub open spec fn digits_value(d: Seq<char>) -> nat
    decreases d.len(),
{
    if d.len() == 0 {
        0
    } else {
        digits_value(d.drop_last()) * 10 + digit_value(d.last())
    }
}

pub open spec fn all_digits(d: Seq<char>) -> bool {
    forall|i: int| 0 <= i < d.len() ==> is_decimal_digit(#[trigger] d[i])
}

/// The value a numeric field takes: the kept characters read as a non-negative
/// integer, or 0 where they do not form one (empty, a decimal point, out of range).
pub open spec fn numeric_field(s: Seq<char>) -> usize {
    let f = numeric_chars(s);
    if f.len() > 0 && all_digits(f) && digits_value(f) <= usize::MAX {
        digits_value(f) as usize
    } else {
        0
    }
}

pub open spec fn has_digit(s: Seq<char>) -> bool {
    exists|i: int| 0 <= i < s.len() && is_decimal_digit(#[trigger] s[i])
}

proof fn lemma_numeric_chars_step(s: Seq<char>, i: int)
    requires
        0 <= i < s.len(),
    ensures
        numeric_chars(s.take(i + 1)) == if is_numeric_char(s[i]) {
            numeric_chars(s.take(i)).push(s[i])
        } else {
            numeric_chars(s.take(i))
        },
{
    assert(s.take(i + 1).drop_last() =~= s.take(i));
}

/// Reads a numeric field: keeps only digits and decimal points, then parses
/// what is left as a non-negative integer; anything unparseable gives 0.
pub fn parse_numeric_field(s: &str) -> (r: usize)
    ensures
        r == numeric_field(s@),
{
    let n = s.unicode_len();
    let mut i: usize = 0;
    let mut count: usize = 0;
    let mut dot = false;
    let mut overflow = false;
    let mut value: usize = 0;
    while i < n
        invariant
            n == s@.len(),
            i <= n,
            count == numeric_chars(s@.take(i as int)).len(),
            dot == !all_digits(numeric_chars(s@.take(i as int))),
            !dot ==> (overflow <==> digits_value(numeric_chars(s@.take(i as int))) > usize::MAX),
            !dot && !overflow ==> value == digits_value(numeric_chars(s@.take(i as int))),
            count <= i,
        decreases n - i,
    {
        let c = s.get_char(i);
        proof {
            lemma_numeric_chars_step(s@, i as int);
        }
        let ghost f = numeric_chars(s@.take(i as int));
        if c == '.' {
            count = count + 1;
            dot = true;
            proof {
                let g = f.push(c);
                assert(g[g.len() - 1] == '.');
            }
        } else if '0' <= c && c <= '9' {
            count = count + 1;
            let ghost g = f.push(c);
            assert(g.drop_last() =~= f);
            if !dot {
                assert(all_digits(g));
                if !overflow {
                    let d = (c as u32 - '0' as u32) as usize;
                    if value <= (usize::MAX - d) / 10 {
                        value = value * 10 + d;
                    } else {
                        overflow = true;
                    }
                }
            } else {
                assert(!all_digits(g)) by {
                    let k = choose|k: int| 0 <= k < f.len() && !is_decimal_digit(f[k]);
                    assert(g[k] == f[k]);
                }
            }
        }
        i = i + 1;
    }
    assert(s@.take(n as int) =~= s@);
    if count > 0 && !dot && !overflow {
        value
    } else {
        0
    }
}

/// Texts without a digit read as 0.
pub proof fn lemma_no_digit_reads_zero(s: Seq<char>)
    requires
        !has_digit(s),
    ensures
        numeric_field(s) == 0,
{
    lemma_numeric_chars_no_digit(s);
    let f = numeric_chars(s);
    if f.len() > 0 {
        assert(!is_decimal_digit(f[0]));
    }
}

proof fn lemma_numeric_chars_no_digit(s: Seq<char>)
    requires
        !has_digit(s),
    ensures
        forall|i: int| 0 <= i < numeric_chars(s).len() ==> #[trigger] numeric_chars(s)[i] == '.',
    decreases s.len(),
{
    if s.len() > 0 {
        let t = s.drop_last();
        assert(!has_digit(t)) by {
            if has_digit(t) {
                let k = choose|k: int| 0 <= k < t.len() && is_decimal_digit(#[trigger] t[k]);
                assert(s[k] == t[k]);
            }
        }
        lemma_numeric_chars_no_digit(t);
        assert(!is_decimal_digit(s[s.len() - 1]));
        let f = numeric_chars(t);
        assert forall|i: int| 0 <= i < numeric_chars(s).len() implies #[trigger] numeric_chars(s)[i]
            == '.' by {
            if is_numeric_char(s.last()) {
                assert(numeric_chars(s) == f.push(s.last()));
                if i < f.len() {
                    assert(numeric_chars(s)[i] == f[i]);
                }
            }
        }
    }
}

/// Texts whose digits and decimal points form a plain integer read as that
/// integer, whatever other characters stand between them.
pub proof fn lemma_digits_read_through_noise(s: Seq<char>)
    requires
        has_digit(s),
        all_digits(numeric_chars(s)),
        digits_value(numeric_chars(s)) <= usize::MAX,
    ensures
        numeric_field(s) == digits_value(numeric_chars(s)),
{
    lemma_digit_kept(s);
}

proof fn lemma_digit_kept(s: Seq<char>)
    requires
        has_digit(s),
    ensures
        numeric_chars(s).len() > 0,
    decreases s.len(),
{
    let t = s.drop_last();
    if !is_numeric_char(s.last()) {
        let k = choose|k: int| 0 <= k < s.len() && is_decimal_digit(#[trigger] s[k]);
        assert(k < t.len());
        assert(t[k] == s[k]);
        lemma_digit_kept(t);
    }
}

/// Unicode's White_Space property, the set `char::is_whitespace` tests for.
pub open spec fn is_white_space(c: char) -> bool {
    ('\t' <= c && c <= '\r') || c == ' ' || c == '\u{85}' || c == '\u{a0}' || c == '\u{1680}'
        || ('\u{2000}' <= c && c <= '\u{200a}') || c == '\u{2028}' || c == '\u{2029}'
        || c == '\u{202f}' || c == '\u{205f}' || c == '\u{3000}'
}

pub fn white_space(c: char) -> (r: bool)
    ensures
        r == is_white_space(c),
{
    ('\t' <= c && c <= '\r') || c == ' ' || c == '\u{85}' || c == '\u{a0}' || c == '\u{1680}'
        || ('\u{2000}' <= c && c <= '\u{200a}') || c == '\u{2028}' || c == '\u{2029}'
        || c == '\u{202f}' || c == '\u{205f}' || c == '\u{3000}'
}

/// The first index at or after `i` that holds no white space.
pub open spec fn lead_end(s: Seq<char>, i: int) -> int
    decreases s.len() - i,
{
    if i < 0 || i >= s.len() {
        s.len() as int
    } else if is_white_space(s[i]) {
        lead_end(s, i + 1)
    } else {
        i
    }
}

/// The end of `s` below `j` once trailing white space down to `lo` is dropped.
pub open spec fn trail_end(s: Seq<char>, lo: int, j: int) -> int
    decreases j - lo,
{
    if j <= lo || j > s.len() {
        lo
    } else if is_white_space(s[j - 1]) {
        trail_end(s, lo, j - 1)
    } else {
        j
    }
}

/// `s` without leading and trailing white space.
pub open spec fn trimmed(s: Seq<char>) -> Seq<char> {
    let a = lead_end(s, 0);
    s.subrange(a, trail_end(s, a, s.len() as int))
}

/// Removes leading and trailing white space.
pub fn trim(s: &str) -> (r: String)
    ensures
        r@ == trimmed(s@),
{
    let n = s.unicode_len();
    let mut i: usize = 0;
    while i < n && white_space(s.get_char(i))
        invariant
            n == s@.len(),
            i <= n,
            lead_end(s@, i as int) == lead_end(s@, 0),
        decreases n - i,
    {
        i = i + 1;
    }
    let mut j: usize = n;
    while j > i && white_space(s.get_char(j - 1))
        invariant
            n == s@.len(),
            i <= j <= n,
            i == lead_end(s@, 0),
            trail_end(s@, i as int, j as int) == trail_end(s@, i as int, n as int),
        decreases j,
    {
        j = j - 1;
    }
    String::from_str(s.substring_char(i, j))
}

/// The first index at or after `i` that holds a line feed, or the length.
pub open spec fn line_end(s: Seq<char>, i: int) -> int
    decreases s.len() - i,
{
    if i < 0 || i >= s.len() {
        s.len() as int
    } else if s[i] == '\n' {
        i
    } else {
        line_end(s, i + 1)
    }
}

/// The first two lines of `s` joined with nothing between them; the rest is dropped.
pub open spec fn first_two_lines(s: Seq<char>) -> Seq<char> {
    let e1 = line_end(s, 0);
    if e1 >= s.len() {
        s
    } else {
        s.subrange(0, e1) + s.subrange(e1 + 1, line_end(s, e1 + 1))
    }
}

fn find_line_end(s: &str, from: usize, n: usize) -> (r: usize)
    requires
        n == s@.len(),
        from <= n,
    ensures
        r == line_end(s@, from as int),
        from <= r <= n,
{
    let mut i = from;
    while i < n && s.get_char(i) != '\n'
        invariant
            n == s@.len(),
            from <= i <= n,
            line_end(s@, i as int) == line_end(s@, from as int),
        decreases n - i,
    {
        i = i + 1;
    }
    i
}

/// Joins the first two lines of `s`, dropping the line feed between them and
/// everything from a second line feed on.
pub fn join_first_two_lines(s: &str) -> (r: String)
    ensures
        r@ == first_two_lines(s@),
{
    let n = s.unicode_len();
    let e1 = find_line_end(s, 0, n);
    if e1 >= n {
        proof {
            assert(s@.subrange(0, n as int) =~= s@);
        }
        String::from_str(s.substring_char(0, n))
    } else {
        let e2 = find_line_end(s, e1 + 1, n);
        let mut r = String::from_str(s.substring_char(0, e1));
        r.append(s.substring_char(e1 + 1, e2));
        r
    }
}

/// `pat` occurs in `s` at index `i`.
pub open spec fn occurs_at(s: Seq<char>, pat: Seq<char>, i: int) -> bool {
    0 <= i && i + pat.len() <= s.len() && s.subrange(i, i + pat.len()) == pat
}

/// `s` from index `i` on, with every occurrence of `pat` removed, scanning left to right.
pub open spec fn removed_from(s: Seq<char>, pat: Seq<char>, i: int) -> Seq<char>
    decreases s.len() - i,
{
    if i < 0 || i >= s.len() || pat.len() == 0 {
        s.subrange(if 0 <= i <= s.len() { i } else { s.len() as int }, s.len() as int)
    } else if occurs_at(s, pat, i) {
        removed_from(s, pat, i + pat.len())
    } else {
        seq![s[i]] + removed_from(s, pat, i + 1)
    }
}

/// `s` with every occurrence of `pat` removed, as `str::replace(pat, "")` does.
pub open spec fn removed(s: Seq<char>, pat: Seq<char>) -> Seq<char> {
    removed_from(s, pat, 0)
}

fn occurs_at_exec(s: &str, n: usize, pat: &str, m: usize, i: usize) -> (r: bool)
    requires
        n == s@.len(),
        m == pat@.len(),
        i <= n,
    ensures
        r == occurs_at(s@, pat@, i as int),
{
    if m > n - i {
        return false;
    }
    let mut k: usize = 0;
    while k < m
        invariant
            n == s@.len(),
            m == pat@.len(),
            i + m <= n,
            k <= m,
            forall|t: int| 0 <= t < k ==> s@[i + t] == pat@[t],
        decreases m - k,
    {
        if s.get_char(i + k) != pat.get_char(k) {
            assert(s@.subrange(i as int, i + m)[k as int] != pat@[k as int]);
            return false;
        }
        k = k + 1;
    }
    assert(s@.subrange(i as int, i + m) =~= pat@);
    true
}

/// Removes every occurrence of `pat` from `s`, scanning left to right.
pub fn remove_all(s: &str, pat: &str) -> (r: String)
    requires
        pat@.len() > 0,
    ensures
        r@ == removed(s@, pat@),
{
    let n = s.unicode_len();
    let m = pat.unicode_len();
    let mut out = String::new();
    let mut start: usize = 0;
    let mut i: usize = 0;
    while i < n
        invariant
            n == s@.len(),
            m == pat@.len(),
            m > 0,
            start <= i <= n,
            out@ + s@.subrange(start as int, i as int) + removed_from(s@, pat@, i as int)
                == removed(s@, pat@),
        decreases n - i,
    {
        if occurs_at_exec(s, n, pat, m, i) {
            out.append(s.substring_char(start, i));
            proof {
                assert(out@ + s@.subrange(i + m, i + m) =~= out@);
            }
            i = i + m;
            start = i;
        } else {
            proof {
                let a = s@.subrange(start as int, i as int);
                let b = s@.subrange(start as int, i + 1);
                assert(b =~= a + seq![s@[i as int]]);
                assert(out@ + a + (seq![s@[i as int]] + removed_from(s@, pat@, i + 1))
                    =~= out@ + b + removed_from(s@, pat@, i + 1));
            }
            i = i + 1;
        }
    }
    out.append(s.substring_char(start, n));
    proof {
        assert(removed_from(s@, pat@, n as int) =~= Seq::<char>::empty());
        assert(out@ + Seq::<char>::empty() =~= out@);
    }
    out
}

/// `needle` occurs somewhere in `hay`.
pub open spec fn contains_seq(hay: Seq<char>, needle: Seq<char>) -> bool {
    exists|i: int| occurs_at(hay, needle, i)
}

/// Tests whether `needle` occurs in `hay`.
pub fn contains(hay: &str, needle: &str) -> (r: bool)
    ensures
        r == contains_seq(hay@, needle@),
{
    let n = hay.unicode_len();
    let m = needle.unicode_len();
    let mut i: usize = 0;
    while i < n
        invariant
            n == hay@.len(),
            m == needle@.len(),
            i <= n,
            forall|k: int| 0 <= k < i ==> !occurs_at(hay@, needle@, k),
        decreases n - i,
    {
        if occurs_at_exec(hay, n, needle, m, i) {
            return true;
        }
        i = i + 1;
    }
    if occurs_at_exec(hay, n, needle, m, n) {
        return true;
    }
    assert forall|k: int| !occurs_at(hay@, needle@, k) by {
        if 0 <= k && k + m <= n {
            assert(k <= n);
        }
    }
    false
}

} // verus!
