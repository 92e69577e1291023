use vstd::prelude::*;

verus! {

pub open spec fn is_digit(c: char) -> bool {
    '0' <= c && c <= '9'
}

/// Every character of `s` in `[from, to)` is an ASCII digit.
pub open spec fn digits_between(s: Seq<char>, from: int, to: int) -> bool {
    forall|i: int| from <= i < to ==> is_digit(#[trigger] s[i])
}

/// `YYYY-MM-DDTHH:MM:SS` at the start of `s`.
pub open spec fn has_date_time_prefix(s: Seq<char>) -> bool {
    &&& s.len() >= 19
    &&& digits_between(s, 0, 4)
    &&& s[4] == '-'
    &&& digits_between(s, 5, 7)
    &&& s[7] == '-'
    &&& digits_between(s, 8, 10)
    &&& s[10] == 'T'
    &&& digits_between(s, 11, 13)
    &&& s[13] == ':'
    &&& digits_between(s, 14, 16)
    &&& s[16] == ':'
    &&& digits_between(s, 17, 19)
}

/// Where the zone designator starts: `Z` is one character, `+HH:MM` / `-HH:MM` six.
pub open spec fn zone_start(s: Seq<char>) -> int {
    if s.len() > 0 && s[s.len() - 1] == 'Z' {
        s.len() - 1
    } else {
        s.len() - 6
    }
}

/// The zone designator from `k` to the end of `s`.
pub open spec fn is_zone_at(s: Seq<char>, k: int) -> bool {
    ||| k == s.len() - 1 && s[k] == 'Z'
    ||| {
        &&& k == s.len() - 6
        &&& (s[k] == '+' || s[k] == '-')
        &&& digits_between(s, k + 1, k + 3)
        &&& s[k + 3] == ':'
        &&& digits_between(s, k + 4, k + 6)
    }
}

/// Nothing, or a dot followed by at least one digit, in `[from, to)`.
pub open spec fn is_fraction(s: Seq<char>, from: int, to: int) -> bool {
    ||| from == to
    ||| to >= from + 2 && s[from] == '.' && digits_between(s, from + 1, to)
}

/// An RFC 3339 date-time, checked for shape only:
/// `YYYY-MM-DDTHH:MM:SS`, optional fractional seconds, then `Z` or a numeric offset.
/// Field ranges (month 13, hour 25) are not checked.
pub open spec fn is_timestamp(s: Seq<char>) -> bool {
    let k = zone_start(s);
    &&& has_date_time_prefix(s)
    &&& 19 <= k
    &&& is_zone_at(s, k)
    &&& is_fraction(s, 19, k)
}

fn is_digit_char(c: char) -> (r: bool)
    ensures
        r == is_digit(c),
{
    '0' <= c && c <= '9'
}

fn all_digits(s: &str, from: usize, to: usize) -> (r: bool)
    requires
        from <= to <= s@.len(),
    ensures
        r == digits_between(s@, from as int, to as int),
{
    let mut i: usize = from;
    while i < to
        invariant
            from <= i <= to <= s@.len(),
            digits_between(s@, from as int, i as int),
        decreases to - i,
    {
        if !is_digit_char(s.get_char(i)) {
            return false;
        }
        i = i + 1;
    }
    true
}

fn has_prefix(s: &str, n: usize) -> (r: bool)
    requires
        n == s@.len(),
    ensures
        r == has_date_time_prefix(s@),
{
    n >= 19 && all_digits(s, 0, 4) && s.get_char(4) == '-' && all_digits(s, 5, 7) && s.get_char(7)
        == '-' && all_digits(s, 8, 10) && s.get_char(10) == 'T' && all_digits(s, 11, 13)
        && s.get_char(13) == ':' && all_digits(s, 14, 16) && s.get_char(16) == ':' && all_digits(
        s,
        17,
        19,
    )
}

/// Whether `s` has the shape of an RFC 3339 date-time (see [`is_timestamp`]).
pub fn is_timestamp_str(s: &str) -> (r: bool)
    ensures
        r == is_timestamp(s@),
{
    let n = s.unicode_len();
    if !has_prefix(s, n) {
        return false;
    }
    let k: usize = if s.get_char(n - 1) == 'Z' {
        n - 1
    } else if n >= 6 {
        n - 6
    } else {
        return false;
    };
    assert(k as int == zone_start(s@));
    if k < 19 {
        return false;
    }
    let zone_ok = if k == n - 1 {
        true
    } else {
        let sign = s.get_char(k);
        (sign == '+' || sign == '-') && all_digits(s, k + 1, k + 3) && s.get_char(k + 3) == ':'
            && all_digits(s, k + 4, k + 6)
    };
    let fraction_ok = k == 19 || (k >= 21 && s.get_char(19) == '.' && all_digits(s, 20, k));
    zone_ok && fraction_ok
}

} // verus!
