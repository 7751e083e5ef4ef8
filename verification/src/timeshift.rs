//! The EPG time shift of a user: parsing `[+-]H[:M]` offsets.

use vstd::prelude::*;
use crate::text::{
    after_char, before_char, chars_of, find_char_from, lemma_split_at_found, parse_i32_range, spec_parse_i32,
};

verus! {

/// The string without its leading `-` and `+` characters.
pub open spec fn strip_signs(s: Seq<char>) -> Seq<char>
    decreases s.len(),
{
    if s.len() > 0 && (s[0] == '-' || s[0] == '+') {
        strip_signs(s.drop_first())
    } else {
        s
    }
}

/// The hours of an offset: the number before the first `:` of the
/// unsigned offset, 0 when it is no number.
pub open spec fn timeshift_hours(s: Seq<char>) -> int {
    match spec_parse_i32(before_char(strip_signs(s), ':')) {
        Some(h) => h as int,
        None => 0,
    }
}

/// The minutes of an offset: the number between the first and the second
/// `:` of the unsigned offset, 0 when there is none or it is no number.
pub open spec fn timeshift_minutes(s: Seq<char>) -> int {
    match after_char(strip_signs(s), ':') {
        Some(rest) => match spec_parse_i32(before_char(rest, ':')) {
            Some(m) => m as int,
            None => 0,
        },
        None => 0,
    }
}

/// The arithmetic of an offset stays in the range of `i32`.
pub open spec fn timeshift_in_range(s: Seq<char>) -> bool {
    &&& i32::MIN <= timeshift_hours(s) * 60 <= i32::MAX
    &&& i32::MIN <= timeshift_hours(s) * 60 + timeshift_minutes(s) <= i32::MAX
}

/// The time shift in minutes of an offset such as `-2:30`, `1:45`, `+0:15`,
/// `2` or `:30`: the total of hours and minutes when positive, negated when
/// the offset starts with `-`; None for a total that is not positive.
pub open spec fn spec_timeshift(s: Seq<char>) -> Option<i32> {
    let total = timeshift_hours(s) * 60 + timeshift_minutes(s);
    if total > 0 {
        Some((if s.len() > 0 && s[0] == '-' { -total } else { total }) as i32)
    } else {
        None
    }
}

/// The view of an optional string.
pub open spec fn opt_string_view(o: Option<&String>) -> Option<Seq<char>> {
    match o {
        Some(s) => Some(s@),
        None => None,
    }
}

/// The hours and minutes of an offset, and whether it starts with `-`.
fn timeshift_parts(offset: &str) -> (r: (i32, i32, bool))
    ensures
        r.0 as int == timeshift_hours(offset@),
        r.1 as int == timeshift_minutes(offset@),
        r.2 == (offset@.len() > 0 && offset@[0] == '-'),
{
    let v = chars_of(offset);
    let n = v.len();
    let negative = n > 0 && v[0] == '-';
    let mut p: usize = 0;
    proof {
        assert(v@.subrange(0, n as int) =~= v@);
    }
    while p < n && (v[p] == '-' || v[p] == '+')
        invariant
            n == v@.len(),
            p <= n,
            strip_signs(v@) == strip_signs(v@.subrange(p as int, n as int)),
        decreases n - p,
    {
        proof {
            assert(v@.subrange(p as int, n as int).drop_first() =~= v@.subrange(p + 1, n as int));
        }
        p = p + 1;
    }
    proof {
        if p < n {
            assert(v@.subrange(p as int, n as int)[0] == v@[p as int]);
        }
        assert(strip_signs(v@) == v@.subrange(p as int, n as int));
    }
    let k1 = find_char_from(&v, ':', p);
    proof {
        lemma_split_at_found(v@, ':', p as int, k1 as int);
    }
    let hours: i32 = match parse_i32_range(&v, p, k1) {
        Some(h) => h,
        None => 0,
    };
    let minutes: i32 = if k1 < n {
        let k2 = find_char_from(&v, ':', k1 + 1);
        proof {
            lemma_split_at_found(v@, ':', k1 + 1, k2 as int);
        }
        match parse_i32_range(&v, k1 + 1, k2) {
            Some(m) => m,
            None => 0,
        }
    } else {
        0
    };
    (hours, minutes, negative)
}

/// Whether the arithmetic of an offset stays in the range of `i32`; an
/// offset outside it makes the minute count overflow.
pub fn timeshift_fits(offset: &str) -> (r: bool)
    ensures
        r == timeshift_in_range(offset@),
{
    let (hours, minutes, _) = timeshift_parts(offset);
    let h = hours as i64 * 60;
    let total = h + minutes as i64;
    -2147483648 <= h && h <= 2147483647 && -2147483648 <= total && total <= 2147483647
}

/// Parses a time shift in minutes (see `spec_timeshift`).
pub fn parse_timeshift(time_shift: Option<&String>) -> (r: Option<i32>)
    requires
        time_shift is Some ==> timeshift_in_range(time_shift.unwrap()@),
    ensures
        r == match time_shift {
            Some(s) => spec_timeshift(s@),
            None => None,
        },
{
    match time_shift {
        None => None,
        Some(offset) => {
            let (hours, minutes, negative) = timeshift_parts(offset.as_str());
            let total_minutes = hours * 60 + minutes;
            if total_minutes > 0 {
                Some(if negative { -total_minutes } else { total_minutes })
            } else {
                None
            }
        },
    }
}

} // verus!
