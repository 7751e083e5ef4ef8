//! Character-level helpers on strings.

use vstd::prelude::*;

verus! {

/// The characters of a string.
pub fn chars_of(s: &str) -> (r: Vec<char>)
    ensures
        r@ == s@,
{
    let mut v: Vec<char> = Vec::new();
    for c in it: s.chars()
        invariant
            v@ == it.seq().take(it.index() as int),
    {
        v.push(c);
    }
    v
}

/// Whether two character vectors hold the same characters.
pub fn chars_eq(a: &Vec<char>, b: &Vec<char>) -> (r: bool)
    ensures
        r == (a@ == b@),
{
    if a.len() != b.len() {
        return false;
    }
    let n = a.len();
    for i in 0..n
        invariant
            n == a.len(),
            n == b.len(),
            forall|j: int| 0 <= j < i ==> a@[j] == b@[j],
    {
        if a[i] != b[i] {
            return false;
        }
    }
    assert(a@ =~= b@);
    true
}

/// Whether two strings hold the same characters.
pub fn str_eq(a: &str, b: &str) -> (r: bool)
    ensures
        r == (a@ == b@),
{
    let ca = chars_of(a);
    let cb = chars_of(b);
    chars_eq(&ca, &cb)
}

/// An ASCII decimal digit.
pub open spec fn is_ascii_digit(c: char) -> bool {
    '0' <= c && c <= '9'
}

/// Every character is an ASCII decimal digit.
pub open spec fn all_digits(s: Seq<char>) -> bool {
    forall|i: int| 0 <= i < s.len() ==> is_ascii_digit(#[trigger] s[i])
}

/// The value of a string of decimal digits.
pub open spec fn digits_value(s: Seq<char>) -> int
    decreases s.len(),
{
    if s.len() == 0 {
        0
    } else {
        digits_value(s.drop_last()) * 10 + (s.last() as int - '0' as int)
    }
}

/// The integer a string denotes in Rust's integer syntax: an optional `+`
/// (or `-` when signed) followed by at least one decimal digit, nothing
/// else; None for any other string.
pub open spec fn parse_int_value(s: Seq<char>, signed: bool) -> Option<int> {
    if s.len() == 0 {
        None
    } else {
        let neg = signed && s[0] == '-';
        let d = if s[0] == '+' || neg { s.drop_first() } else { s };
        if d.len() > 0 && all_digits(d) {
            Some(if neg { -digits_value(d) } else { digits_value(d) })
        } else {
            None
        }
    }
}

/// `str::parse::<i32>`: the value when the string is an integer in the
/// range of `i32`.
pub open spec fn spec_parse_i32(s: Seq<char>) -> Option<i32> {
    match parse_int_value(s, true) {
        Some(v) => if i32::MIN <= v <= i32::MAX { Some(v as i32) } else { None },
        None => None,
    }
}

/// `str::parse::<u32>`: the value when the string is an unsigned integer
/// in the range of `u32`.
pub open spec fn spec_parse_u32(s: Seq<char>) -> Option<u32> {
    match parse_int_value(s, false) {
        Some(v) => if 0 <= v <= u32::MAX { Some(v as u32) } else { None },
        None => None,
    }
}

/// `str::parse::<usize>`.
pub open spec fn spec_parse_usize(s: Seq<char>) -> Option<usize> {
    match parse_int_value(s, false) {
        Some(v) => if 0 <= v <= usize::MAX { Some(v as usize) } else { None },
        None => None,
    }
}

/// The value of digits is at least that of any prefix.
pub proof fn lemma_digits_value_prefix(s: Seq<char>, k: int)
    requires
        0 <= k <= s.len(),
        all_digits(s),
    ensures
        digits_value(s.take(k)) <= digits_value(s),
        digits_value(s.take(k)) >= 0,
    decreases s.len(),
{
    if s.len() > 0 {
        if k == s.len() {
            assert(s.take(k) =~= s);
            lemma_digits_value_nonneg(s);
        } else {
            let t = s.drop_last();
            assert(t.take(k) =~= s.take(k));
            assert forall|i: int| 0 <= i < t.len() implies is_ascii_digit(#[trigger] t[i]) by {
                assert(t[i] == s[i]);
            }
            lemma_digits_value_prefix(t, k);
            assert(is_ascii_digit(s[s.len() - 1]));
        }
    } else {
        assert(s.take(k) =~= s);
    }
}

/// Digits have a non-negative value.
pub proof fn lemma_digits_value_nonneg(s: Seq<char>)
    requires
        all_digits(s),
    ensures
        digits_value(s) >= 0,
    decreases s.len(),
{
    if s.len() > 0 {
        let t = s.drop_last();
        assert forall|i: int| 0 <= i < t.len() implies is_ascii_digit(#[trigger] t[i]) by {
            assert(t[i] == s[i]);
        }
        lemma_digits_value_nonneg(t);
        assert(is_ascii_digit(s[s.len() - 1]));
    }
}

/// The value of the decimal digits `v[start..end]` when they are all digits
/// and the value is at most `bound`; None otherwise.
fn parse_magnitude(v: &Vec<char>, start: usize, end: usize, bound: u64) -> (r: Option<u64>)
    requires
        start <= end <= v@.len(),
        bound <= u32::MAX + 1,
    ensures
        match r {
            Some(m) => {
                &&& all_digits(v@.subrange(start as int, end as int))
                &&& m == digits_value(v@.subrange(start as int, end as int))
                &&& m <= bound
            },
            None => !all_digits(v@.subrange(start as int, end as int))
                || digits_value(v@.subrange(start as int, end as int)) > bound,
        },
{
    let ghost sub = v@.subrange(start as int, end as int);
    let mut m: u64 = 0;
    let mut i = start;
    while i < end
        invariant
            start <= i <= end <= v@.len(),
            sub == v@.subrange(start as int, end as int),
            all_digits(v@.subrange(start as int, i as int)),
            m == digits_value(v@.subrange(start as int, i as int)),
            m <= bound,
            bound <= u32::MAX + 1,
        decreases end - i,
    {
        let c = v[i];
        let ghost pre = v@.subrange(start as int, i as int);
        let ghost next = v@.subrange(start as int, i + 1);
        proof {
            assert(next.drop_last() =~= pre);
            assert(next.last() == c);
            assert(sub.take(i - start) =~= pre);
            assert(sub.take(i + 1 - start) =~= next);
        }
        if !('0' <= c && c <= '9') {
            proof {
                assert(sub[i - start] == c);
            }
            return None;
        }
        let d = (c as u32 - '0' as u32) as u64;
        m = m * 10 + d;
        proof {
            assert forall|j: int| 0 <= j < next.len() implies is_ascii_digit(#[trigger] next[j]) by {
                if j < pre.len() {
                    assert(next[j] == pre[j]);
                }
            }
        }
        if m > bound {
            proof {
                if all_digits(sub) {
                    lemma_digits_value_prefix(sub, i + 1 - start);
                }
            }
            return None;
        }
        i = i + 1;
    }
    Some(m)
}

/// `str::parse::<i32>` on the characters `v[start..end]`.
pub fn parse_i32_range(v: &Vec<char>, start: usize, end: usize) -> (r: Option<i32>)
    requires
        start <= end <= v@.len(),
    ensures
        r == spec_parse_i32(v@.subrange(start as int, end as int)),
{
    let ghost s = v@.subrange(start as int, end as int);
    if start == end {
        return None;
    }
    let c = v[start];
    assert(s[0] == c);
    let neg = c == '-';
    let digits_start = if c == '+' || neg { start + 1 } else { start };
    proof {
        assert(v@.subrange(digits_start as int, end as int) =~= (if c == '+' || neg { s.drop_first() } else { s }));
    }
    if digits_start == end {
        return None;
    }
    let bound: u64 = if neg { 2147483648 } else { 2147483647 };
    match parse_magnitude(v, digits_start, end, bound) {
        None => None,
        Some(m) => {
            if neg {
                if m == 2147483648 {
                    Some(-2147483647i32 - 1)
                } else {
                    Some(-(m as i32))
                }
            } else {
                Some(m as i32)
            }
        },
    }
}

/// `str::parse::<u32>` on the characters `v[start..end]`.
pub fn parse_u32_range(v: &Vec<char>, start: usize, end: usize) -> (r: Option<u32>)
    requires
        start <= end <= v@.len(),
    ensures
        r == spec_parse_u32(v@.subrange(start as int, end as int)),
{
    let ghost s = v@.subrange(start as int, end as int);
    if start == end {
        return None;
    }
    let c = v[start];
    assert(s[0] == c);
    let digits_start = if c == '+' { start + 1 } else { start };
    proof {
        assert(v@.subrange(digits_start as int, end as int) =~= (if c == '+' { s.drop_first() } else { s }));
    }
    if digits_start == end {
        return None;
    }
    match parse_magnitude(v, digits_start, end, 4294967295) {
        None => None,
        Some(m) => Some(m as u32),
    }
}

/// `str::parse::<usize>` on the characters `v[start..end]`.
pub fn parse_usize_range(v: &Vec<char>, start: usize, end: usize) -> (r: Option<usize>)
    requires
        start <= end <= v@.len(),
    ensures
        r == spec_parse_usize(v@.subrange(start as int, end as int)),
{
    let ghost s = v@.subrange(start as int, end as int);
    if start == end {
        return None;
    }
    let c0 = v[start];
    assert(s[0] == c0);
    let digits_start = if c0 == '+' { start + 1 } else { start };
    let ghost d = v@.subrange(digits_start as int, end as int);
    proof {
        assert(d =~= (if c0 == '+' { s.drop_first() } else { s }));
    }
    if digits_start == end {
        return None;
    }
    let mut m: usize = 0;
    let mut i = digits_start;
    while i < end
        invariant
            digits_start <= i <= end <= v@.len(),
            d == v@.subrange(digits_start as int, end as int),
            s == v@.subrange(start as int, end as int),
            s.len() > 0,
            d == (if s[0] == '+' { s.drop_first() } else { s }),
            d.len() > 0,
            all_digits(v@.subrange(digits_start as int, i as int)),
            m == digits_value(v@.subrange(digits_start as int, i as int)),
        decreases end - i,
    {
        let c = v[i];
        let ghost pre = v@.subrange(digits_start as int, i as int);
        let ghost next = v@.subrange(digits_start as int, i + 1);
        proof {
            assert(next.drop_last() =~= pre);
            assert(next.last() == c);
            assert(d.take(i + 1 - digits_start) =~= next);
        }
        if !('0' <= c && c <= '9') {
            proof {
                assert(d[i - digits_start] == c);
                assert(!is_ascii_digit(d[i - digits_start]));
            }
            return None;
        }
        proof {
            assert forall|j: int| 0 <= j < next.len() implies is_ascii_digit(#[trigger] next[j]) by {
                if j < pre.len() {
                    assert(next[j] == pre[j]);
                }
            }
        }
        let digit = (c as u32 - '0' as u32) as usize;
        assert(digits_value(next) == m * 10 + digit);
        let grown = match m.checked_mul(10) {
            Some(t) => t.checked_add(digit),
            None => None,
        };
        match grown {
            None => {
                proof {
                    if all_digits(d) {
                        lemma_digits_value_prefix(d, i + 1 - digits_start);
                    }
                }
                return None;
            },
            Some(g) => {
                m = g;
            },
        }
        i = i + 1;
    }
    proof {
        assert(v@.subrange(digits_start as int, end as int) =~= d);
    }
    Some(m)
}

/// `str::parse::<u32>`.
pub fn parse_u32(s: &str) -> (r: Option<u32>)
    ensures
        r == spec_parse_u32(s@),
{
    let v = chars_of(s);
    proof {
        assert(v@.subrange(0, v@.len() as int) =~= s@);
    }
    parse_u32_range(&v, 0, v.len())
}

/// `str::parse::<i32>`.
pub fn parse_i32(s: &str) -> (r: Option<i32>)
    ensures
        r == spec_parse_i32(s@),
{
    let v = chars_of(s);
    proof {
        assert(v@.subrange(0, v@.len() as int) =~= s@);
    }
    parse_i32_range(&v, 0, v.len())
}

/// The characters before the first `c` (all of them when there is none).
pub open spec fn before_char(s: Seq<char>, c: char) -> Seq<char>
    decreases s.len(),
{
    if s.len() == 0 {
        s
    } else if s[0] == c {
        Seq::<char>::empty()
    } else {
        seq![s[0]] + before_char(s.drop_first(), c)
    }
}

/// The characters after the first `c`; None when there is none.
pub open spec fn after_char(s: Seq<char>, c: char) -> Option<Seq<char>>
    decreases s.len(),
{
    if s.len() == 0 {
        None
    } else if s[0] == c {
        Some(s.drop_first())
    } else {
        after_char(s.drop_first(), c)
    }
}

/// The position of the first `c` at or after `from`, or the length.
pub fn find_char_from(v: &Vec<char>, c: char, from: usize) -> (r: usize)
    requires
        from <= v@.len(),
    ensures
        from <= r <= v@.len(),
        forall|j: int| from <= j < r ==> v@[j] != c,
        r < v@.len() ==> v@[r as int] == c,
{
    let n = v.len();
    let mut i = from;
    while i < n
        invariant
            n == v@.len(),
            from <= i <= n,
            forall|j: int| from <= j < i ==> v@[j] != c,
        decreases n - i,
    {
        if v[i] == c {
            return i;
        }
        i = i + 1;
    }
    n
}

/// A split found by a search is the split the spec describes.
pub proof fn lemma_split_at_found(v: Seq<char>, c: char, from: int, r: int)
    requires
        0 <= from <= r <= v.len(),
        forall|j: int| from <= j < r ==> v[j] != c,
        r < v.len() ==> v[r] == c,
    ensures
        before_char(v.subrange(from, v.len() as int), c) == v.subrange(from, r),
        after_char(v.subrange(from, v.len() as int), c) == (if r < v.len() {
            Some(v.subrange(r + 1, v.len() as int))
        } else {
            None::<Seq<char>>
        }),
    decreases r - from,
{
    let s = v.subrange(from, v.len() as int);
    if from < r {
        lemma_split_at_found(v, c, from + 1, r);
        assert(s.drop_first() =~= v.subrange(from + 1, v.len() as int));
        assert(s[0] == v[from]);
        assert(seq![v[from]] + v.subrange(from + 1, r) =~= v.subrange(from, r));
    } else if r < v.len() {
        assert(s[0] == v[r]);
        assert(s.drop_first() =~= v.subrange(r + 1, v.len() as int));
        assert(v.subrange(from, r) =~= Seq::<char>::empty());
    } else {
        assert(s =~= Seq::<char>::empty());
        assert(v.subrange(from, r) =~= Seq::<char>::empty());
    }
}

/// The position of the last `c`, or -1.
pub open spec fn last_index_of(s: Seq<char>, c: char) -> int
    decreases s.len(),
{
    if s.len() == 0 {
        -1
    } else if s.last() == c {
        s.len() - 1
    } else {
        last_index_of(s.drop_last(), c)
    }
}

/// `str::rfind` for a character: its last position.
pub fn rfind_char(v: &Vec<char>, c: char) -> (r: Option<usize>)
    ensures
        match r {
            Some(i) => i as int == last_index_of(v@, c) && i < v@.len(),
            None => last_index_of(v@, c) == -1,
        },
{
    let n = v.len();
    let mut i = n;
    proof {
        assert(v@.take(n as int) =~= v@);
    }
    while i > 0
        invariant
            i <= n == v@.len(),
            last_index_of(v@, c) == last_index_of(v@.take(i as int), c),
        decreases i,
    {
        proof {
            assert(v@.take(i as int).drop_last() =~= v@.take(i - 1));
            assert(v@.take(i as int).last() == v@[i - 1]);
        }
        if v[i - 1] == c {
            return Some(i - 1);
        }
        i = i - 1;
    }
    proof {
        assert(v@.take(0) =~= Seq::<char>::empty());
    }
    None
}

/// The string made of the characters `v[start..end]`.
pub fn string_of_range(v: &Vec<char>, start: usize, end: usize) -> (r: String)
    requires
        start <= end <= v@.len(),
    ensures
        r@ == v@.subrange(start as int, end as int),
{
    let mut r = String::new();
    let mut i = start;
    while i < end
        invariant
            start <= i <= end <= v@.len(),
            r@ == v@.subrange(start as int, i as int),
        decreases end - i,
    {
        push_char(&mut r, v[i]);
        proof {
            assert(v@.subrange(start as int, i + 1) =~= v@.subrange(start as int, i as int).push(v@[i as int]));
        }
        i = i + 1;
    }
    r
}

/// `String::push`: appends one character.
#[verifier::external_body]
pub(crate) fn push_char(s: &mut String, c: char)
    ensures
        final(s)@ == old(s)@.push(c),
{
    s.push(c)
}

/// `char::is_whitespace`: the characters of Unicode's White_Space property.
pub open spec fn is_whitespace(c: char) -> bool {
    ||| ('\u{9}' <= c && c <= '\u{d}')
    ||| c == ' '
    ||| c == '\u{85}'
    ||| c == '\u{a0}'
    ||| c == '\u{1680}'
    ||| ('\u{2000}' <= c && c <= '\u{200a}')
    ||| c == '\u{2028}'
    ||| c == '\u{2029}'
    ||| c == '\u{202f}'
    ||| c == '\u{205f}'
    ||| c == '\u{3000}'
}

fn char_is_whitespace(c: char) -> (r: bool)
    ensures
        r == is_whitespace(c),
{
    ('\u{9}' <= c && c <= '\u{d}') || c == ' ' || c == '\u{85}' || c == '\u{a0}' || c == '\u{1680}'
        || ('\u{2000}' <= c && c <= '\u{200a}') || c == '\u{2028}' || c == '\u{2029}' || c == '\u{202f}'
        || c == '\u{205f}' || c == '\u{3000}'
}

/// The number of leading white-space characters.
pub open spec fn leading_ws(s: Seq<char>) -> nat
    decreases s.len(),
{
    if s.len() > 0 && is_whitespace(s[0]) {
        1 + leading_ws(s.drop_first())
    } else {
        0
    }
}

/// The number of trailing white-space characters.
pub open spec fn trailing_ws(s: Seq<char>) -> nat
    decreases s.len(),
{
    if s.len() > 0 && is_whitespace(s.last()) {
        1 + trailing_ws(s.drop_last())
    } else {
        0
    }
}

/// `str::trim`: the string without leading and trailing white space.
pub open spec fn trim(s: Seq<char>) -> Seq<char> {
    let t = s.skip(leading_ws(s) as int);
    t.take(t.len() - trailing_ws(t))
}

/// The leading white space is no longer than the string.
pub proof fn lemma_leading_ws_bound(s: Seq<char>)
    ensures
        leading_ws(s) <= s.len(),
    decreases s.len(),
{
    if s.len() > 0 && is_whitespace(s[0]) {
        lemma_leading_ws_bound(s.drop_first());
    }
}

/// The trailing white space is no longer than the string.
pub proof fn lemma_trailing_ws_bound(s: Seq<char>)
    ensures
        trailing_ws(s) <= s.len(),
    decreases s.len(),
{
    if s.len() > 0 && is_whitespace(s.last()) {
        lemma_trailing_ws_bound(s.drop_last());
    }
}

/// The bounds of the trimmed part of `v[start..end]`.
pub fn trim_bounds(v: &Vec<char>, start: usize, end: usize) -> (r: (usize, usize))
    requires
        start <= end <= v@.len(),
    ensures
        start <= r.0 <= r.1 <= end,
        v@.subrange(r.0 as int, r.1 as int) == trim(v@.subrange(start as int, end as int)),
{
    let ghost s = v@.subrange(start as int, end as int);
    let mut a = start;
    while a < end && char_is_whitespace(v[a])
        invariant
            start <= a <= end <= v@.len(),
            s == v@.subrange(start as int, end as int),
            leading_ws(s) == (a - start) + leading_ws(v@.subrange(a as int, end as int)),
        decreases end - a,
    {
        proof {
            assert(v@.subrange(a as int, end as int).drop_first() =~= v@.subrange(a + 1, end as int));
        }
        a = a + 1;
    }
    proof {
        if a < end {
            assert(v@.subrange(a as int, end as int)[0] == v@[a as int]);
        }
        assert(leading_ws(v@.subrange(a as int, end as int)) == 0);
        assert(s.skip(leading_ws(s) as int) =~= v@.subrange(a as int, end as int));
    }
    let ghost t = v@.subrange(a as int, end as int);
    let mut b = end;
    proof {
        assert(v@.subrange(a as int, b as int) =~= t);
    }
    while b > a && char_is_whitespace(v[b - 1])
        invariant
            start <= a <= b <= end <= v@.len(),
            t == v@.subrange(a as int, end as int),
            trailing_ws(t) == (end - b) + trailing_ws(v@.subrange(a as int, b as int)),
        decreases b - a,
    {
        proof {
            assert(v@.subrange(a as int, b as int).drop_last() =~= v@.subrange(a as int, b - 1));
            assert(v@.subrange(a as int, b as int).last() == v@[b - 1]);
        }
        b = b - 1;
    }
    proof {
        if b > a {
            assert(v@.subrange(a as int, b as int).last() == v@[b - 1]);
        }
        assert(trailing_ws(v@.subrange(a as int, b as int)) == 0);
        assert(t.take(t.len() - trailing_ws(t)) =~= v@.subrange(a as int, b as int));
    }
    (a, b)
}

/// `str::trim`.
pub fn trim_str(s: &str) -> (r: String)
    ensures
        r@ == trim(s@),
{
    let v = chars_of(s);
    let (a, b) = trim_bounds(&v, 0, v.len());
    proof {
        assert(v@.subrange(0, v@.len() as int) =~= s@);
    }
    string_of_range(&v, a, b)
}

/// Whether `s` starts with `p`.
pub open spec fn starts_with(s: Seq<char>, p: Seq<char>) -> bool {
    p.len() <= s.len() && s.take(p.len() as int) == p
}

/// Whether the characters `v[start..end]` start with `p`.
pub fn range_starts_with(v: &Vec<char>, start: usize, end: usize, p: &Vec<char>) -> (r: bool)
    requires
        start <= end <= v@.len(),
    ensures
        r == starts_with(v@.subrange(start as int, end as int), p@),
{
    let ghost s = v@.subrange(start as int, end as int);
    if p.len() > end - start {
        return false;
    }
    let n = p.len();
    for i in 0..n
        invariant
            n == p@.len(),
            n <= end - start,
            start <= end <= v@.len(),
            s == v@.subrange(start as int, end as int),
            forall|j: int| 0 <= j < i ==> v@[start + j] == p@[j],
    {
        if v[start + i] != p[i] {
            assert(s.take(n as int)[i as int] != p@[i as int]);
            return false;
        }
    }
    assert(s.take(n as int) =~= p@);
    true
}

/// Whether `needle` occurs in `hay`.
pub open spec fn contains_seq(hay: Seq<char>, needle: Seq<char>) -> bool {
    exists|i: int| 0 <= i <= hay.len() - needle.len() && #[trigger] hay.subrange(i, i + needle.len()) == needle
}

/// `str::contains` for a string pattern.
pub fn str_contains(hay: &str, needle: &str) -> (r: bool)
    ensures
        r == contains_seq(hay@, needle@),
{
    let h = chars_of(hay);
    let nd = chars_of(needle);
    let hn = h.len();
    let nn = nd.len();
    if nn > hn {
        return false;
    }
    let mut i: usize = 0;
    while i <= hn - nn
        invariant
            hn == h@.len(),
            nn == nd@.len(),
            nn <= hn,
            h@ == hay@,
            nd@ == needle@,
            i <= hn - nn,
            forall|j: int| 0 <= j < i ==> #[trigger] h@.subrange(j, j + nn) != nd@,
        decreases hn - nn - i,
    {
        if range_starts_with(&h, i, hn, &nd) {
            proof {
                assert(h@.subrange(i as int, hn as int).take(nn as int) =~= h@.subrange(i as int, i + nn));
            }
            return true;
        }
        proof {
            assert(h@.subrange(i as int, hn as int).take(nn as int) =~= h@.subrange(i as int, i + nn));
        }
        if i == hn - nn {
            return false;
        }
        i = i + 1;
    }
    false
}

/// `str::replace`: every occurrence of `from`, left to right and without
/// overlap, replaced by `to`; an empty `from` matches before every
/// character and at the end.
pub open spec fn spec_replace(s: Seq<char>, from: Seq<char>, to: Seq<char>) -> Seq<char>
    decreases s.len(),
{
    if from.len() == 0 {
        if s.len() == 0 {
            to
        } else {
            to + seq![s[0]] + spec_replace(s.drop_first(), from, to)
        }
    } else if s.len() < from.len() {
        s
    } else if s.take(from.len() as int) == from {
        to + spec_replace(s.skip(from.len() as int), from, to)
    } else {
        seq![s[0]] + spec_replace(s.drop_first(), from, to)
    }
}

/// `str::replace`.
pub fn replace_all(s: &str, from: &str, to: &str) -> (r: String)
    ensures
        r@ == spec_replace(s@, from@, to@),
{
    let v = chars_of(s);
    let f = chars_of(from);
    let n = v.len();
    let m = f.len();
    let mut r = String::new();
    let mut i: usize = 0;
    proof {
        assert(v@.subrange(0, n as int) =~= v@);
    }
    while i < n
        invariant
            n == v@.len(),
            m == f@.len(),
            v@ == s@,
            f@ == from@,
            i <= n,
            spec_replace(s@, from@, to@) == r@ + spec_replace(v@.subrange(i as int, n as int), from@, to@),
        decreases n - i,
    {
        let ghost sub = v@.subrange(i as int, n as int);
        let ghost before = r@;
        proof {
            assert(sub[0] == v@[i as int]);
            assert(sub.drop_first() =~= v@.subrange(i + 1, n as int));
        }
        if m == 0 {
            push_str(&mut r, to);
            push_char(&mut r, v[i]);
            proof {
                assert(before + (to@ + seq![v@[i as int]] + spec_replace(v@.subrange(i + 1, n as int), from@, to@))
                    =~= r@ + spec_replace(v@.subrange(i + 1, n as int), from@, to@));
            }
            i = i + 1;
        } else if n - i >= m && range_starts_with(&v, i, n, &f) {
            push_str(&mut r, to);
            proof {
                assert(sub.skip(m as int) =~= v@.subrange(i + m, n as int));
                assert(before + (to@ + spec_replace(v@.subrange(i + m, n as int), from@, to@))
                    =~= r@ + spec_replace(v@.subrange(i + m, n as int), from@, to@));
            }
            i = i + m;
        } else {
            push_char(&mut r, v[i]);
            proof {
                let next = v@.subrange(i + 1, n as int);
                if sub.len() < m {
                    assert(next.len() < m);
                    assert(sub =~= seq![v@[i as int]] + next);
                }
                assert(spec_replace(sub, from@, to@) == seq![v@[i as int]] + spec_replace(next, from@, to@));
                assert(before + (seq![v@[i as int]] + spec_replace(next, from@, to@))
                    =~= r@ + spec_replace(next, from@, to@));
            }
            i = i + 1;
        }
    }
    proof {
        assert(v@.subrange(n as int, n as int) =~= Seq::<char>::empty());
    }
    if m == 0 {
        let ghost before = r@;
        push_str(&mut r, to);
    } else {
        proof {
            assert(r@ + Seq::<char>::empty() =~= r@);
        }
    }
    r
}

/// The decimal digits of a number, without leading zeros.
pub open spec fn decimal(n: nat) -> Seq<char>
    decreases n,
{
    if n < 10 {
        seq![digit_char(n)]
    } else {
        decimal(n / 10).push(digit_char(n % 10))
    }
}

/// The character of a decimal digit.
pub open spec fn digit_char(d: nat) -> char {
    if d == 0 { '0' }
    else if d == 1 { '1' }
    else if d == 2 { '2' }
    else if d == 3 { '3' }
    else if d == 4 { '4' }
    else if d == 5 { '5' }
    else if d == 6 { '6' }
    else if d == 7 { '7' }
    else if d == 8 { '8' }
    else { '9' }
}

fn digit_to_char(d: u32) -> (c: char)
    requires
        d < 10,
    ensures
        c == digit_char(d as nat),
{
    if d == 0 { '0' }
    else if d == 1 { '1' }
    else if d == 2 { '2' }
    else if d == 3 { '3' }
    else if d == 4 { '4' }
    else if d == 5 { '5' }
    else if d == 6 { '6' }
    else if d == 7 { '7' }
    else if d == 8 { '8' }
    else { '9' }
}

/// Appends the decimal digits of `n` (as `format!("{n}")` writes them).
pub fn push_decimal(s: &mut String, n: u32)
    ensures
        final(s)@ == old(s)@ + decimal(n as nat),
    decreases n,
{
    if n >= 10 {
        push_decimal(s, n / 10);
    }
    push_char(s, digit_to_char(n % 10));
    proof {
        if n < 10 {
            assert(old(s)@.push(digit_char(n as nat)) =~= old(s)@ + decimal(n as nat));
        } else {
            assert((old(s)@ + decimal((n / 10) as nat)).push(digit_char((n % 10) as nat)) =~= old(s)@ + decimal(n as nat));
        }
    }
}

/// Appends the decimal digits of `n` (as `format!("{n}")` writes them).
pub fn push_decimal_usize(s: &mut String, n: usize)
    ensures
        final(s)@ == old(s)@ + decimal(n as nat),
    decreases n,
{
    if n >= 10 {
        push_decimal_usize(s, n / 10);
    }
    push_char(s, digit_to_char((n % 10) as u32));
    proof {
        if n < 10 {
            assert(old(s)@.push(digit_char(n as nat)) =~= old(s)@ + decimal(n as nat));
        } else {
            assert((old(s)@ + decimal((n / 10) as nat)).push(digit_char((n % 10) as nat)) =~= old(s)@ + decimal(n as nat));
        }
    }
}

/// Appends a string.
pub fn push_str(s: &mut String, t: &str)
    ensures
        final(s)@ == old(s)@ + t@,
{
    s.append(t);
}

} // verus!
