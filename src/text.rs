//! Text helpers over sequences of characters.
use vstd::prelude::*;

verus! {

/// Relies on `str::chars`: the characters of a string slice, in order.
#[verifier::external_body]
pub(crate) fn chars_of(s: &str) -> (r: Vec<char>)
    ensures
        r@ == s@,
{
    s.chars().collect()
}

/// The pieces of `s[0..n]` between occurrences of `sep`: the pieces already
/// closed by a separator, and the piece still open.
pub open spec fn split_prefix(s: Seq<char>, sep: char, n: nat) -> (Seq<Seq<char>>, Seq<char>)
    decreases n,
{
    if n == 0 {
        (seq![], seq![])
    } else {
        let (done, open) = split_prefix(s, sep, (n - 1) as nat);
        if s[n - 1] == sep {
            (done.push(open), seq![])
        } else {
            (done, open.push(s[n - 1]))
        }
    }
}

/// The pieces of `s` between occurrences of `sep`; there is always one more
/// piece than there are separators.
pub open spec fn split_on(s: Seq<char>, sep: char) -> Seq<Seq<char>> {
    let (done, open) = split_prefix(s, sep, s.len());
    done.push(open)
}

/// The character sequences held by a sequence of vectors.
pub open spec fn views(v: Seq<Vec<char>>) -> Seq<Seq<char>> {
    v.map_values(|x: Vec<char>| x@)
}

pub fn split_chars(s: &Vec<char>, sep: char) -> (r: Vec<Vec<char>>)
    ensures
        views(r@) == split_on(s@, sep),
{
    let mut done: Vec<Vec<char>> = Vec::new();
    let mut open: Vec<char> = Vec::new();
    let mut i: usize = 0;
    while i < s.len()
        invariant
            i <= s.len(),
            (views(done@), open@) == split_prefix(s@, sep, i as nat),
        decreases s.len() - i,
    {
        let c = s[i];
        if c == sep {
            let ghost before = views(done@);
            let piece = open;
            open = Vec::new();
            done.push(piece);
            assert(views(done@) =~= before.push(piece@));
        } else {
            open.push(c);
        }
        i += 1;
    }
    let ghost before = views(done@);
    let last = open;
    done.push(last);
    assert(views(done@) =~= before.push(last@));
    done
}

/// `s` with one trailing carriage return removed.
pub open spec fn strip_cr(s: Seq<char>) -> Seq<char> {
    if s.len() > 0 && s.last() == '\r' {
        s.drop_last()
    } else {
        s
    }
}

pub fn strip_trailing_cr(s: &mut Vec<char>)
    ensures
        final(s)@ == strip_cr(old(s)@),
{
    if s.len() > 0 && s[s.len() - 1] == '\r' {
        s.pop();
    }
}

/// Whether `s` holds `pat` at position `at`.
pub open spec fn holds_at(s: Seq<char>, at: int, pat: Seq<char>) -> bool {
    0 <= at && at + pat.len() <= s.len() && s.subrange(at, at + pat.len()) == pat
}

pub fn matches_at(s: &Vec<char>, at: usize, pat: &str) -> (r: bool)
    ensures
        r == holds_at(s@, at as int, pat@),
{
    let n = pat.unicode_len();
    if n > s.len() || at > s.len() - n {
        return false;
    }
    let mut j: usize = 0;
    while j < n
        invariant
            n == pat@.len(),
            at + n <= s.len(),
            j <= n,
            forall|k: int| 0 <= k < j ==> s@[at + k] == pat@[k],
        decreases n - j,
    {
        if s[at + j] != pat.get_char(j) {
            assert(s@.subrange(at as int, at + n)[j as int] != pat@[j as int]);
            return false;
        }
        j += 1;
    }
    assert(s@.subrange(at as int, at + n) =~= pat@);
    true
}

/// Whether `s` reads exactly `pat`.
pub fn equals_text(s: &Vec<char>, pat: &str) -> (r: bool)
    ensures
        r == (s@ == pat@),
{
    let n = pat.unicode_len();
    let r = s.len() == n && matches_at(s, 0, pat);
    proof {
        if s@.len() == pat@.len() {
            assert(s@.subrange(0, s@.len() as int) =~= s@);
        }
    }
    r
}

/// Whether `pat` occurs anywhere in `s`.
pub open spec fn occurs_in(s: Seq<char>, pat: Seq<char>) -> bool {
    exists|at: int| holds_at(s, at, pat)
}

pub fn contains(s: &Vec<char>, pat: &str) -> (r: bool)
    ensures
        r == occurs_in(s@, pat@),
{
    let mut at: usize = 0;
    while at < s.len()
        invariant
            at <= s.len(),
            forall|k: int| 0 <= k < at ==> !holds_at(s@, k, pat@),
        decreases s.len() - at,
    {
        if matches_at(s, at, pat) {
            return true;
        }
        at += 1;
    }
    if matches_at(s, at, pat) {
        return true;
    }
    assert forall|k: int| !holds_at(s@, k, pat@) by {
        if 0 <= k < at {
        } else if k > at {
        }
    }
    false
}

/// Index of the first `c` in `s`, if any.
pub open spec fn first_index_of(s: Seq<char>, c: char) -> Option<int> {
    if exists|i: int| 0 <= i < s.len() && s[i] == c {
        Some(choose|i: int| 0 <= i < s.len() && s[i] == c && forall|j: int| 0 <= j < i ==> s[j] != c)
    } else {
        None
    }
}

pub fn find_char(s: &Vec<char>, c: char) -> (r: Option<usize>)
    ensures
        r matches Some(i) ==> i < s@.len() && s@[i as int] == c && forall|j: int|
            0 <= j < i ==> s@[j] != c,
        r is None ==> forall|j: int| 0 <= j < s@.len() ==> s@[j] != c,
{
    let mut i: usize = 0;
    while i < s.len()
        invariant
            i <= s.len(),
            forall|j: int| 0 <= j < i ==> s@[j] != c,
        decreases s.len() - i,
    {
        if s[i] == c {
            return Some(i);
        }
        i += 1;
    }
    None
}

/// The part of `s` before the first `c`, or all of `s`.
pub open spec fn before_char(s: Seq<char>, c: char) -> Seq<char> {
    match first_index_of(s, c) {
        Some(i) => s.subrange(0, i),
        None => s,
    }
}

/// The part of `s` after the first `c`, or nothing.
pub open spec fn after_char(s: Seq<char>, c: char) -> Seq<char> {
    match first_index_of(s, c) {
        Some(i) => s.subrange(i + 1, s.len() as int),
        None => seq![],
    }
}

proof fn lemma_first_index(s: Seq<char>, c: char, i: int)
    requires
        0 <= i < s.len(),
        s[i] == c,
        forall|j: int| 0 <= j < i ==> s[j] != c,
    ensures
        first_index_of(s, c) == Some(i),
{
    let k = choose|k: int| 0 <= k < s.len() && s[k] == c && forall|j: int| 0 <= j < k ==> s[j] != c;
    assert(0 <= k < s.len() && s[k] == c && forall|j: int| 0 <= j < k ==> s[j] != c);
    if k < i {
        assert(s[k] != c);
    }
    if i < k {
        assert(s[i] != c);
    }
}

pub fn copy_range(s: &Vec<char>, from: usize, to: usize) -> (r: Vec<char>)
    requires
        from <= to <= s.len(),
    ensures
        r@ == s@.subrange(from as int, to as int),
{
    let mut r: Vec<char> = Vec::new();
    let mut i: usize = from;
    while i < to
        invariant
            from <= i <= to <= s.len(),
            r@ == s@.subrange(from as int, i as int),
        decreases to - i,
    {
        r.push(s[i]);
        i += 1;
        assert(r@ =~= s@.subrange(from as int, i as int));
    }
    r
}

/// Splits `s` at its first `c` into the part before and the part after.
pub fn split_once(s: &Vec<char>, c: char) -> (r: (Vec<char>, Vec<char>))
    ensures
        r.0@ == before_char(s@, c),
        r.1@ == after_char(s@, c),
{
    match find_char(s, c) {
        Some(i) => {
            proof {
                lemma_first_index(s@, c, i as int);
            }
            (copy_range(s, 0, i), copy_range(s, i + 1, s.len()))
        },
        None => {
            assert(!exists|i: int| 0 <= i < s@.len() && s@[i] == c);
            (copy_range(s, 0, s.len()), Vec::new())
        },
    }
}

pub open spec fn is_digit(c: char) -> bool {
    '0' <= c <= '9'
}

pub open spec fn digit_value(c: char) -> int {
    c as int - '0' as int
}

/// The number written by the decimal digits of `s`, most significant first.
pub open spec fn decimal_value(s: Seq<char>) -> int
    decreases s.len(),
{
    if s.len() == 0 {
        0
    } else {
        10 * decimal_value(s.drop_last()) + digit_value(s.last())
    }
}

pub open spec fn all_digits(s: Seq<char>) -> bool {
    forall|i: int| 0 <= i < s.len() ==> is_digit(#[trigger] s[i])
}

/// A count written in decimal: one to nine digits and nothing else.
pub open spec fn count_of(s: Seq<char>) -> Option<int> {
    if 1 <= s.len() <= 9 && all_digits(s) {
        Some(decimal_value(s))
    } else {
        None
    }
}

proof fn lemma_decimal_bound(s: Seq<char>)
    requires
        all_digits(s),
    ensures
        0 <= decimal_value(s) < pow10(s.len() as nat),
    decreases s.len(),
{
    if s.len() > 0 {
        let t = s.drop_last();
        assert(all_digits(t)) by {
            assert forall|i: int| 0 <= i < t.len() implies is_digit(#[trigger] t[i]) by {
                assert(t[i] == s[i]);
            }
        }
        lemma_decimal_bound(t);
        assert(is_digit(s[s.len() - 1]));
        assert(pow10(s.len() as nat) == 10 * pow10(t.len() as nat));
    }
}

pub open spec fn pow10(n: nat) -> int
    decreases n,
{
    if n == 0 {
        1
    } else {
        10 * pow10((n - 1) as nat)
    }
}

/// The value of the digits `s[from..to]`, all of which must be digits.
pub fn digits_value(s: &Vec<char>, from: usize, to: usize) -> (r: u32)
    requires
        from <= to <= s.len(),
        to - from <= 9,
        all_digits(s@.subrange(from as int, to as int)),
    ensures
        r == decimal_value(s@.subrange(from as int, to as int)),
{
    let mut v: u32 = 0;
    let mut i: usize = from;
    proof {
        reveal_with_fuel(pow10, 10);
        assert(pow10(9) == 1_000_000_000);
    }
    while i < to
        invariant
            from <= i <= to <= s.len(),
            to - from <= 9,
            all_digits(s@.subrange(from as int, to as int)),
            v == decimal_value(s@.subrange(from as int, i as int)),
            v < pow10((i - from) as nat),
            pow10(9) == 1_000_000_000,
        decreases to - i,
    {
        let ghost prev = s@.subrange(from as int, i as int);
        let ghost next = s@.subrange(from as int, i + 1);
        assert(next.drop_last() =~= prev);
        assert(s@.subrange(from as int, to as int)[i - from] == s@[i as int]);
        proof {
            lemma_pow10_mono((i - from) as nat, 8);
        }
        let d = (s[i] as u32) - ('0' as u32);
        v = v * 10 + d;
        i += 1;
    }
    v
}

proof fn lemma_pow10_pos(n: nat)
    ensures
        pow10(n) >= 1,
    decreases n,
{
    if n > 0 {
        lemma_pow10_pos((n - 1) as nat);
    }
}

proof fn lemma_pow10_mono(a: nat, b: nat)
    requires
        a <= b,
    ensures
        pow10(a) <= pow10(b),
        pow10(a) >= 1,
    decreases b,
{
    lemma_pow10_pos(a);
    if a < b {
        lemma_pow10_mono(a, (b - 1) as nat);
    }
}

pub fn all_digits_in(s: &Vec<char>, from: usize, to: usize) -> (r: bool)
    requires
        from <= to <= s.len(),
    ensures
        r == all_digits(s@.subrange(from as int, to as int)),
{
    let mut i: usize = from;
    while i < to
        invariant
            from <= i <= to <= s.len(),
            forall|k: int| from <= k < i ==> is_digit(s@[k]),
        decreases to - i,
    {
        if s[i] < '0' || s[i] > '9' {
            assert(!is_digit(s@.subrange(from as int, to as int)[i - from]));
            return false;
        }
        i += 1;
    }
    assert forall|k: int| 0 <= k < to - from implies is_digit(
        #[trigger] s@.subrange(from as int, to as int)[k],
    ) by {
        assert(s@.subrange(from as int, to as int)[k] == s@[from + k]);
    }
    true
}

/// Reads a count: one to nine decimal digits.
pub fn parse_count(s: &Vec<char>) -> (r: Option<u32>)
    ensures
        r matches Some(v) ==> count_of(s@) == Some(v as int),
        r is None ==> count_of(s@) is None,
{
    if s.len() < 1 || s.len() > 9 || !all_digits_in(s, 0, s.len()) {
        assert(s@.subrange(0, s@.len() as int) =~= s@);
        return None;
    }
    assert(s@.subrange(0, s@.len() as int) =~= s@);
    Some(digits_value(s, 0, s.len()))
}

} // verus!
