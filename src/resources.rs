//! The resource list: rows of a spreadsheet, filtered by expiration and sorted.
use crate::text::chars_of;
use crate::text::split_chars;
use crate::text::split_on;
use crate::text::views;
use chrono::Datelike;
use vstd::prelude::*;

verus! {

/// One resource: a caption, a link, the day it expires (if it does) and
/// its keywords.
#[derive(Clone, Debug)]
pub struct ResourceRow {
    pub caption: String,
    pub link: String,
    pub expiration_day: Option<i64>,
    pub keywords: Vec<String>,
}

/// `s` without leading and trailing white space.
pub uninterp spec fn trim_of(s: Seq<char>) -> Seq<char>;

/// Relies on `str::trim`: `s` without leading and trailing white space.
#[verifier::external_body]
fn trim_text(s: &str) -> (r: String)
    ensures
        r@ == trim_of(s@),
{
    s.trim().to_string()
}

/// Relies on `String`'s `FromIterator<char>`: the string of the characters, in order.
#[verifier::external_body]
fn string_from_chars(c: &Vec<char>) -> (r: String)
    ensures
        r@ == c@,
{
    c.iter().collect()
}

/// The day number of a date written `year/month/day`, as chrono reads it.
pub uninterp spec fn slash_date_of(s: Seq<char>) -> Option<int>;

/// Relies on chrono's `NaiveDate::parse_from_str` with the format `%Y/%m/%d`,
/// and on `Datelike::num_days_from_ce` for the day number.
#[verifier::external_body]
fn parse_slash_date(s: &str) -> (r: Option<i32>)
    ensures
        match r {
            Some(d) => slash_date_of(s@) == Some(d as int),
            None => slash_date_of(s@) is None,
        },
{
    chrono::NaiveDate::parse_from_str(s, "%Y/%m/%d").ok().map(|d| d.num_days_from_ce())
}

/// The pieces that are not empty, in order.
pub open spec fn nonempty_of(pieces: Seq<Seq<char>>) -> Seq<Seq<char>>
    decreases pieces.len(),
{
    if pieces.len() == 0 {
        seq![]
    } else if pieces.last().len() == 0 {
        nonempty_of(pieces.drop_last())
    } else {
        nonempty_of(pieces.drop_last()).push(pieces.last())
    }
}

/// The strings of a sequence of `String`s.
pub open spec fn string_views(v: Seq<String>) -> Seq<Seq<char>> {
    v.map_values(|s: String| s@)
}

/// The keywords of a comma-separated list: each piece trimmed, empty ones left out.
pub open spec fn keywords_of(s: Seq<char>) -> Seq<Seq<char>> {
    nonempty_of(split_on(s, ',').map_values(|p: Seq<char>| trim_of(p)))
}

/// Keeps the keywords that are not empty, in order.
pub fn nonempty_keywords(trimmed: Vec<String>) -> (r: Vec<String>)
    ensures
        string_views(r@) == nonempty_of(string_views(trimmed@)),
{
    let ghost ts = string_views(trimmed@);
    let mut r: Vec<String> = Vec::new();
    let mut i: usize = 0;
    while i < trimmed.len()
        invariant
            i <= trimmed@.len(),
            ts == string_views(trimmed@),
            string_views(r@) == nonempty_of(ts.take(i as int)),
        decreases trimmed@.len() - i,
    {
        proof {
            assert(ts.take(i + 1).drop_last() =~= ts.take(i as int));
            assert(ts.take(i + 1).last() == trimmed@[i as int]@);
        }
        if !trimmed[i].as_str().is_empty() {
            let ghost before = string_views(r@);
            r.push(trimmed[i].clone());
            assert(string_views(r@) =~= before.push(trimmed@[i as int]@));
        }
        i += 1;
    }
    assert(ts.take(trimmed@.len() as int) =~= ts);
    r
}

/// Reads a comma-separated keyword list.
pub fn parse_keywords(s: &str) -> (r: Vec<String>)
    ensures
        string_views(r@) == keywords_of(s@),
{
    let pieces = split_chars(&chars_of(s), ',');
    let ghost ps = views(pieces@);
    let mut trimmed: Vec<String> = Vec::new();
    let mut i: usize = 0;
    while i < pieces.len()
        invariant
            i <= pieces@.len(),
            ps == views(pieces@),
            ps == split_on(s@, ','),
            trimmed@.len() == i,
            forall|k: int| 0 <= k < i ==> (#[trigger] trimmed@[k])@ == trim_of(ps[k]),
        decreases pieces@.len() - i,
    {
        let piece = string_from_chars(&pieces[i]);
        let t = trim_text(piece.as_str());
        trimmed.push(t);
        i += 1;
    }
    assert(string_views(trimmed@) =~= split_on(s@, ',').map_values(|p: Seq<char>| trim_of(p)));
    nonempty_keywords(trimmed)
}

/// The expiration day of a cell: none when the cell is blank, else the date
/// it holds, or none when it holds no date.
pub open spec fn expiration_of(s: Seq<char>) -> Option<int> {
    let t = trim_of(s);
    if t.len() == 0 {
        None
    } else {
        slash_date_of(t)
    }
}

/// Reads an expiration cell written `year/month/day`.
pub fn parse_expiration(s: &str) -> (r: Option<i64>)
    ensures
        match r {
            Some(d) => expiration_of(s@) == Some(d as int),
            None => expiration_of(s@) is None,
        },
{
    let t = trim_text(s);
    if t.as_str().is_empty() {
        None
    } else {
        match parse_slash_date(t.as_str()) {
            Some(d) => Some(d as i64),
            None => None,
        }
    }
}

/// Whether a row expires within `days` days from `today`, both ends included.
pub open spec fn expires_soon(r: ResourceRow, today: int, days: int) -> bool {
    r.expiration_day matches Some(d) && today <= d <= today + days
}

/// The rows that expire within `days` days from `today`, in order.
pub open spec fn expiring_of(rows: Seq<ResourceRow>, today: int, days: int) -> Seq<ResourceRow>
    decreases rows.len(),
{
    if rows.len() == 0 {
        seq![]
    } else if expires_soon(rows.last(), today, days) {
        expiring_of(rows.drop_last(), today, days).push(rows.last())
    } else {
        expiring_of(rows.drop_last(), today, days)
    }
}

/// The rows that never expire, in order.
pub open spec fn lasting_of(rows: Seq<ResourceRow>) -> Seq<ResourceRow>
    decreases rows.len(),
{
    if rows.len() == 0 {
        seq![]
    } else if rows.last().expiration_day is None {
        lasting_of(rows.drop_last()).push(rows.last())
    } else {
        lasting_of(rows.drop_last())
    }
}

/// Whether `a` comes no later than `b` when ordered by expiration day.
pub open spec fn day_le(a: Option<i64>, b: Option<i64>) -> bool {
    match (a, b) {
        (None, _) => true,
        (Some(_), None) => false,
        (Some(x), Some(y)) => x <= y,
    }
}

/// Lexicographic order of character sequences, by code point.
pub open spec fn text_le(a: Seq<char>, b: Seq<char>) -> bool
    decreases a.len(),
{
    if a.len() == 0 {
        true
    } else if b.len() == 0 {
        false
    } else if a[0] != b[0] {
        a[0] < b[0]
    } else {
        text_le(a.drop_first(), b.drop_first())
    }
}

pub open spec fn sorted_by_day(v: Seq<ResourceRow>) -> bool {
    forall|i: int, j: int|
        0 <= i < j < v.len() ==> day_le(#[trigger] v[i].expiration_day, #[trigger] v[j].expiration_day)
}

pub open spec fn sorted_by_caption(v: Seq<ResourceRow>) -> bool {
    forall|i: int, j: int|
        0 <= i < j < v.len() ==> text_le((#[trigger] v[i]).caption@, (#[trigger] v[j]).caption@)
}

/// Relies on `slice::sort_by_key`, a stable sort: the same rows, ordered by
/// expiration day (`None` before any day).
#[verifier::external_body]
fn sort_by_expiration(v: &mut Vec<ResourceRow>)
    ensures
        final(v)@.to_multiset() == old(v)@.to_multiset(),
        sorted_by_day(final(v)@),
{
    v.sort_by_key(|r| r.expiration_day)
}

/// The order of two captions, by code point.
pub open spec fn text_order(a: Seq<char>, b: Seq<char>) -> core::cmp::Ordering {
    if a == b {
        core::cmp::Ordering::Equal
    } else if text_le(a, b) {
        core::cmp::Ordering::Less
    } else {
        core::cmp::Ordering::Greater
    }
}

/// Compares the captions of two rows.
pub fn compare_captions(a: &ResourceRow, b: &ResourceRow) -> (r: core::cmp::Ordering)
    ensures
        r == text_order(a.caption@, b.caption@),
{
    let x = chars_of(a.caption.as_str());
    let y = chars_of(b.caption.as_str());
    let mut i: usize = 0;
    assert(x@.skip(0) =~= x@);
    assert(y@.skip(0) =~= y@);
    while i < x.len() && i < y.len() && x[i] == y[i]
        invariant
            i <= x@.len(),
            i <= y@.len(),
            x@.take(i as int) == y@.take(i as int),
            text_le(x@, y@) == text_le(x@.skip(i as int), y@.skip(i as int)),
        decreases x@.len() - i,
    {
        proof {
            let (p, q) = (x@.skip(i as int), y@.skip(i as int));
            assert(p.drop_first() =~= x@.skip(i + 1));
            assert(q.drop_first() =~= y@.skip(i + 1));
            assert(x@.take(i + 1) =~= x@.take(i as int).push(x@[i as int]));
            assert(y@.take(i + 1) =~= y@.take(i as int).push(y@[i as int]));
        }
        i += 1;
    }
    if i == x.len() && i == y.len() {
        assert(x@ =~= x@.take(i as int));
        assert(y@ =~= y@.take(i as int));
        core::cmp::Ordering::Equal
    } else if i == x.len() {
        assert(x@.skip(i as int).len() == 0);
        assert(x@.len() != y@.len());
        core::cmp::Ordering::Less
    } else if i == y.len() {
        assert(y@.skip(i as int).len() == 0 && x@.skip(i as int).len() > 0);
        assert(x@.len() != y@.len());
        core::cmp::Ordering::Greater
    } else {
        assert(x@.skip(i as int)[0] == x@[i as int]);
        assert(y@.skip(i as int)[0] == y@[i as int]);
        assert(x@[i as int] != y@[i as int]);
        if x[i] < y[i] {
            core::cmp::Ordering::Less
        } else {
            core::cmp::Ordering::Greater
        }
    }
}

/// Relies on `slice::sort_by`, a stable sort, with [`compare_captions`] as
/// the order: the same rows, ordered by caption.
#[verifier::external_body]
fn sort_by_caption(v: &mut Vec<ResourceRow>)
    ensures
        final(v)@.to_multiset() == old(v)@.to_multiset(),
        sorted_by_caption(final(v)@),
{
    v.sort_by(|a, b| compare_captions(a, b))
}

/// The rows to show: those that expire within `days` days from `today`,
/// soonest first, then those that never expire, by caption. Rows that have
/// expired or expire later are left out.
pub fn filter_and_sort_resources(resources: Vec<ResourceRow>, days: i64, today: i64) -> (r: Vec<
    ResourceRow,
>)
    ensures
        r@.len() == expiring_of(resources@, today as int, days as int).len() + lasting_of(
            resources@,
        ).len(),
        r@.take(expiring_of(resources@, today as int, days as int).len() as int).to_multiset()
            == expiring_of(resources@, today as int, days as int).to_multiset(),
        sorted_by_day(r@.take(expiring_of(resources@, today as int, days as int).len() as int)),
        r@.skip(expiring_of(resources@, today as int, days as int).len() as int).to_multiset()
            == lasting_of(resources@).to_multiset(),
        sorted_by_caption(r@.skip(expiring_of(resources@, today as int, days as int).len() as int)),
{
    let ghost rs = resources@;
    let mut rest = resources;
    let mut expiring: Vec<ResourceRow> = Vec::new();
    let mut lasting: Vec<ResourceRow> = Vec::new();
    while rest.len() > 0
        invariant
            rest@.len() <= rs.len(),
            rest@ == rs.skip(rs.len() - rest@.len()),
            expiring@ == expiring_of(rs.take(rs.len() - rest@.len()), today as int, days as int),
            lasting@ == lasting_of(rs.take(rs.len() - rest@.len())),
        decreases rest@.len(),
    {
        let ghost i = rs.len() - rest@.len();
        proof {
            assert(rs.take(i + 1).drop_last() =~= rs.take(i));
            assert(rs.take(i + 1).last() == rs[i]);
            assert(rest@[0] == rs[i]);
        }
        let row = rest.remove(0);
        assert(rest@ =~= rs.skip(i + 1));
        match row.expiration_day {
            Some(d) => {
                if today as i128 <= d as i128 && d as i128 <= today as i128 + days as i128 {
                    expiring.push(row);
                }
            },
            None => {
                lasting.push(row);
            },
        }
    }
    assert(rs.take(rs.len() as int) =~= rs);
    let ghost e0 = expiring@;
    let ghost l0 = lasting@;
    sort_by_expiration(&mut expiring);
    sort_by_caption(&mut lasting);
    let ghost e = expiring@;
    let ghost l = lasting@;
    proof {
        e0.to_multiset_ensures();
        e.to_multiset_ensures();
        l0.to_multiset_ensures();
        l.to_multiset_ensures();
    }
    expiring.append(&mut lasting);
    assert(expiring@.take(e.len() as int) =~= e);
    assert(expiring@.skip(e.len() as int) =~= l);
    expiring
}

} // verus!
