//! The session cookie that pins a client's stream to one provider, and the
//! stream token it carries: `{virtual_id}:{token}:{provider}@{stream_url}`,
//! obfuscated by a cipher the caller supplies.

use vstd::prelude::*;
use crate::text::{
    after_char, before_char, chars_of, decimal, digit_char, digits_value, all_digits,
    find_char_from, is_ascii_digit, is_whitespace, lemma_split_at_found, parse_int_value,
    parse_u32_range, push_char, push_decimal, push_str, range_starts_with, spec_parse_u32,
    starts_with, string_of_range, trim, trim_bounds, leading_ws, trailing_ws,
    lemma_leading_ws_bound, lemma_trailing_ws_bound,
};

verus! {

/// The cookie's name together with its `=`.
pub open spec fn session_cookie_prefix() -> Seq<char> {
    "m3uflt_session="@
}

/// The attributes of a session cookie (it lives three hours).
pub open spec fn session_cookie_attributes() -> Seq<char> {
    "; Max-Age=10800; HttpOnly; SameSite=Strict"@
}

/// The attributes of the cookie that deletes the session cookie.
pub open spec fn delete_cookie_attributes() -> Seq<char> {
    "; Max-Age=0; Path=/; HttpOnly"@
}

/// The `Set-Cookie` value that stores `cookie` as the session cookie.
pub fn create_session_cookie(cookie: &str) -> (r: String)
    ensures
        r@ == session_cookie_prefix() + cookie@ + session_cookie_attributes(),
{
    let mut s = String::new();
    push_str(&mut s, "m3uflt_session=");
    push_str(&mut s, cookie);
    push_str(&mut s, "; Max-Age=10800; HttpOnly; SameSite=Strict");
    s
}

/// The `Set-Cookie` value that removes the session cookie.
pub fn create_delete_session_cookie() -> (r: String)
    ensures
        r@ == session_cookie_prefix() + delete_cookie_attributes(),
{
    let mut s = String::new();
    push_str(&mut s, "m3uflt_session=");
    push_str(&mut s, "; Max-Age=0; Path=/; HttpOnly");
    s
}

/// The plain text of a stream token.
pub open spec fn stream_token_text(
    virtual_id: u32,
    token: Seq<char>,
    provider_name: Seq<char>,
    stream_url: Seq<char>,
) -> Seq<char> {
    decimal(virtual_id as nat) + seq![':'] + token + seq![':'] + provider_name + seq!['@'] + stream_url
}

/// Writes the plain text of a stream token.
pub fn format_stream_token(virtual_id: u32, token: &str, provider_name: &str, stream_url: &str) -> (r: String)
    ensures
        r@ == stream_token_text(virtual_id, token@, provider_name@, stream_url@),
{
    let mut s = String::new();
    push_decimal(&mut s, virtual_id);
    push_char(&mut s, ':');
    push_str(&mut s, token);
    push_char(&mut s, ':');
    push_str(&mut s, provider_name);
    push_char(&mut s, '@');
    push_str(&mut s, stream_url);
    proof {
        assert(s@ =~= stream_token_text(virtual_id, token@, provider_name@, stream_url@));
    }
    s
}

/// The obfuscated stream token for a provider connection: the plain text
/// handed to `obfuscate` together with `secret`; None when the cipher fails.
pub fn create_token_for_provider<F>(
    secret: &[u8],
    token: &str,
    virtual_id: u32,
    provider_name: &str,
    stream_url: &str,
    obfuscate: F,
) -> (r: Option<String>) where F: Fn(&[u8], &str) -> Result<String, String>
    requires
        forall|k: &[u8], t: &str| obfuscate.requires((k, t)),
    ensures
        exists|t: &str, res: Result<String, String>|
            #![trigger obfuscate.ensures((secret, t), res)]
            {
                &&& t@ == stream_token_text(virtual_id, token@, provider_name@, stream_url@)
                &&& obfuscate.ensures((secret, t), res)
                &&& r == match res {
                    Ok(c) => Some(c),
                    Err(_) => None::<String>,
                }
            },
{
    let text = format_stream_token(virtual_id, token, provider_name, stream_url);
    let res = obfuscate(secret, text.as_str());
    match res {
        Ok(c) => Some(c),
        Err(_) => None,
    }
}

/// The `Set-Cookie` value carrying the obfuscated stream token; None when
/// the cipher fails.
pub fn create_session_cookie_for_provider<F>(
    secret: &[u8],
    token: &str,
    virtual_id: u32,
    provider_name: &str,
    stream_url: &str,
    obfuscate: F,
) -> (r: Option<String>) where F: Fn(&[u8], &str) -> Result<String, String>
    requires
        forall|k: &[u8], t: &str| obfuscate.requires((k, t)),
    ensures
        exists|t: &str, res: Result<String, String>|
            #![trigger obfuscate.ensures((secret, t), res)]
            {
                &&& t@ == stream_token_text(virtual_id, token@, provider_name@, stream_url@)
                &&& obfuscate.ensures((secret, t), res)
                &&& match res {
                    Ok(c) => r is Some && r->0@ == session_cookie_prefix() + c@ + session_cookie_attributes(),
                    Err(_) => r is None,
                }
            },
{
    match create_token_for_provider(secret, token, virtual_id, provider_name, stream_url, obfuscate) {
        Some(cookie_value) => Some(create_session_cookie(cookie_value.as_str())),
        None => None,
    }
}

/// The pieces that `split(c)` yields after the empty ones are dropped, for a
/// text whose current piece so far is `cur`.
pub open spec fn nonempty_pieces(s: Seq<char>, c: char, cur: Seq<char>) -> Seq<Seq<char>>
    decreases s.len(),
{
    if s.len() == 0 {
        if cur.len() > 0 { seq![cur] } else { Seq::<Seq<char>>::empty() }
    } else if s[0] == c {
        (if cur.len() > 0 { seq![cur] } else { Seq::<Seq<char>>::empty() })
            + nonempty_pieces(s.drop_first(), c, Seq::<char>::empty())
    } else {
        nonempty_pieces(s.drop_first(), c, cur.push(s[0]))
    }
}

/// What a stream token's plain text holds: `(token, virtual_id, provider,
/// stream_url)`. The url is everything after the first `@`; before it the
/// non-empty pieces between `:` must be exactly three, the first a `u32`.
pub open spec fn spec_stream_info(text: Seq<char>) -> Option<(Seq<char>, u32, Seq<char>, Seq<char>)> {
    match after_char(text, '@') {
        None => None,
        Some(url) => {
            let pieces = nonempty_pieces(before_char(text, '@'), ':', Seq::<char>::empty());
            if pieces.len() != 3 {
                None
            } else {
                match spec_parse_u32(pieces[0]) {
                    Some(vid) => Some((pieces[1], vid, pieces[2], url)),
                    None => None,
                }
            }
        },
    }
}

/// The view of a decoded stream token.
pub open spec fn stream_info_view(r: Option<(String, u32, String, String)>) -> Option<(Seq<char>, u32, Seq<char>, Seq<char>)> {
    match r {
        Some((t, v, p, u)) => Some((t@, v, p@, u@)),
        None => None,
    }
}

/// The pieces of the ranges of `v` that `ranges` lists.
pub open spec fn range_pieces(v: Seq<char>, ranges: Seq<(usize, usize)>) -> Seq<Seq<char>> {
    ranges.map_values(|p: (usize, usize)| v.subrange(p.0 as int, p.1 as int))
}

/// The piece in progress, as a sequence of at most one piece.
pub open spec fn emit(cur: Seq<char>) -> Seq<Seq<char>> {
    if cur.len() > 0 { seq![cur] } else { Seq::<Seq<char>>::empty() }
}

/// Reads a stream token's plain text.
pub fn parse_stream_token(text: &str) -> (r: Option<(String, u32, String, String)>)
    ensures
        stream_info_view(r) == spec_stream_info(text@),
{
    let v = chars_of(text);
    let n = v.len();
    let at = find_char_from(&v, '@', 0);
    proof {
        lemma_split_at_found(v@, '@', 0, at as int);
        assert(v@.subrange(0, n as int) =~= v@);
    }
    if at == n {
        return None;
    }
    let ghost head = v@.subrange(0, at as int);
    let mut ranges: Vec<(usize, usize)> = Vec::new();
    let mut cur_start: usize = 0;
    let mut i: usize = 0;
    proof {
        assert(v@.subrange(0, 0) =~= Seq::<char>::empty());
        assert(range_pieces(v@, ranges@) =~= Seq::<Seq<char>>::empty());
        assert(v@.subrange(0, at as int) =~= head);
    }
    while i < at
        invariant
            n == v@.len(),
            at < n,
            head == v@.subrange(0, at as int),
            cur_start <= i <= at,
            forall|k: int| 0 <= k < ranges@.len() ==> (#[trigger] ranges@[k]).0 <= ranges@[k].1 <= at,
            nonempty_pieces(head, ':', Seq::<char>::empty())
                == range_pieces(v@, ranges@) + nonempty_pieces(
                    v@.subrange(i as int, at as int),
                    ':',
                    v@.subrange(cur_start as int, i as int),
                ),
        decreases at - i,
    {
        let ghost s_i = v@.subrange(i as int, at as int);
        let ghost cur = v@.subrange(cur_start as int, i as int);
        let ghost done = range_pieces(v@, ranges@);
        proof {
            assert(s_i[0] == v@[i as int]);
            assert(s_i.drop_first() =~= v@.subrange(i + 1, at as int));
        }
        if v[i] == ':' {
            if cur_start < i {
                let ghost before = ranges@;
                ranges.push((cur_start, i));
                proof {
                    assert(range_pieces(v@, ranges@) =~= done + seq![cur]);
                    assert forall|k: int| 0 <= k < ranges@.len() implies (#[trigger] ranges@[k]).0 <= ranges@[k].1 <= at by {
                        if k < ranges@.len() - 1 {
                            assert(ranges@[k] == before[k]);
                        }
                    }
                }
            } else {
                proof {
                    assert(cur =~= Seq::<char>::empty());
                }
            }
            proof {
                assert(range_pieces(v@, ranges@) =~= done + emit(cur));
                assert(done + (emit(cur) + nonempty_pieces(v@.subrange(i + 1, at as int), ':', Seq::<char>::empty()))
                    =~= (done + emit(cur)) + nonempty_pieces(v@.subrange(i + 1, at as int), ':', Seq::<char>::empty()));
                assert(v@.subrange(i + 1, i + 1) =~= Seq::<char>::empty());
            }
            cur_start = i + 1;
        } else {
            proof {
                assert(cur.push(v@[i as int]) =~= v@.subrange(cur_start as int, i + 1));
            }
        }
        i = i + 1;
    }
    let ghost cur = v@.subrange(cur_start as int, at as int);
    let ghost done = range_pieces(v@, ranges@);
    proof {
        assert(v@.subrange(at as int, at as int) =~= Seq::<char>::empty());
    }
    if cur_start < at {
        ranges.push((cur_start, at));
        proof {
            assert(range_pieces(v@, ranges@) =~= done + seq![cur]);
        }
    } else {
        proof {
            assert(cur =~= Seq::<char>::empty());
            assert(done + Seq::<Seq<char>>::empty() =~= done);
        }
    }
    proof {
        assert(nonempty_pieces(head, ':', Seq::<char>::empty()) == range_pieces(v@, ranges@));
    }
    if ranges.len() != 3 {
        return None;
    }
    let (vs, ve) = ranges[0];
    let (ts, te) = ranges[1];
    let (ps, pe) = ranges[2];
    proof {
        assert(ranges@[0].0 <= ranges@[0].1 <= at);
        assert(ranges@[1].0 <= ranges@[1].1 <= at);
        assert(ranges@[2].0 <= ranges@[2].1 <= at);
    }
    match parse_u32_range(&v, vs, ve) {
        None => None,
        Some(vid) => {
            let t = string_of_range(&v, ts, te);
            let p = string_of_range(&v, ps, pe);
            let u = string_of_range(&v, at + 1, n);
            Some((t, vid, p, u))
        },
    }
}

/// Decodes a session cookie into `(token, virtual_id, provider, stream_url)`:
/// `deobfuscate` turns it back into plain text with `secret`; None when the
/// cipher fails or the text is no stream token.
pub fn get_stream_info_from_crypted_cookie<F>(secret: &[u8], cookie: &str, deobfuscate: F) -> (r: Option<(String, u32, String, String)>)
    where F: Fn(&[u8], &str) -> Result<String, String>
    requires
        deobfuscate.requires((secret, cookie)),
    ensures
        exists|res: Result<String, String>|
            #![trigger deobfuscate.ensures((secret, cookie), res)]
            {
                &&& deobfuscate.ensures((secret, cookie), res)
                &&& match res {
                    Ok(text) => stream_info_view(r) == spec_stream_info(text@),
                    Err(_) => r is None,
                }
            },
{
    let res = deobfuscate(secret, cookie);
    match res {
        Ok(text) => parse_stream_token(text.as_str()),
        Err(_) => None,
    }
}

/// What follows the first `c` is shorter than the string.
pub proof fn lemma_after_char_shorter(s: Seq<char>, c: char)
    ensures
        after_char(s, c) matches Some(r) ==> r.len() < s.len(),
    decreases s.len(),
{
    if s.len() > 0 && s[0] != c {
        lemma_after_char_shorter(s.drop_first(), c);
    }
}

/// The session cookie's value in a `Cookie` header: the header is split at
/// `;`, the first trimmed part that starts with the cookie's name is taken,
/// and its value after the name, trimmed, is the result.
pub open spec fn spec_session_cookie(s: Seq<char>) -> Option<Seq<char>>
    decreases s.len(),
{
    let part = trim(before_char(s, ';'));
    if starts_with(part, session_cookie_prefix()) {
        Some(trim(part.skip(session_cookie_prefix().len() as int)))
    } else {
        match after_char(s, ';') {
            Some(rest) => {
                proof {
                    lemma_after_char_shorter(s, ';');
                }
                spec_session_cookie(rest)
            },
            None => None,
        }
    }
}

/// Reads the session cookie's value from the text of a `Cookie` header.
pub fn session_cookie_from_header(header: &str) -> (r: Option<String>)
    ensures
        match r {
            Some(c) => spec_session_cookie(header@) == Some(c@),
            None => spec_session_cookie(header@) is None,
        },
{
    let v = chars_of(header);
    let p = chars_of("m3uflt_session=");
    let n = v.len();
    let mut start: usize = 0;
    proof {
        assert(v@.subrange(0, n as int) =~= v@);
    }
    loop
        invariant
            n == v@.len(),
            p@ == session_cookie_prefix(),
            start <= n,
            spec_session_cookie(header@) == spec_session_cookie(v@.subrange(start as int, n as int)),
            v@ == header@,
        decreases n - start,
    {
        let end = find_char_from(&v, ';', start);
        proof {
            lemma_split_at_found(v@, ';', start as int, end as int);
        }
        let (a, b) = trim_bounds(&v, start, end);
        if p.len() <= b - a && range_starts_with(&v, a, b, &p) {
            let (x, y) = trim_bounds(&v, a + p.len(), b);
            proof {
                assert(v@.subrange(a as int, b as int).skip(p@.len() as int) =~= v@.subrange(a + p@.len(), b as int));
            }
            return Some(string_of_range(&v, x, y));
        }
        proof {
            if p@.len() > b - a {
                assert(!starts_with(v@.subrange(a as int, b as int), p@));
            }
        }
        if end == n {
            return None;
        }
        start = end + 1;
    }
}

/// A prefix without `c` is what comes before the first `c`, and the rest
/// is what follows it.
pub proof fn lemma_split_after_prefix(p: Seq<char>, q: Seq<char>, c: char)
    requires
        !p.contains(c),
    ensures
        before_char(p + seq![c] + q, c) == p,
        after_char(p + seq![c] + q, c) == Some(q),
    decreases p.len(),
{
    let s = p + seq![c] + q;
    if p.len() == 0 {
        assert(s =~= seq![c] + q);
        assert(s.drop_first() =~= q);
    } else {
        let p1 = p.drop_first();
        assert(!p1.contains(c)) by {
            if p1.contains(c) {
                let k = choose|k: int| 0 <= k < p1.len() && p1[k] == c;
                assert(p[k + 1] == c);
            }
        }
        lemma_split_after_prefix(p1, q, c);
        assert(s.drop_first() =~= p1 + seq![c] + q);
        assert(s[0] == p[0]);
        assert(p[0] != c);
        assert(seq![p[0]] + p1 =~= p);
    }
}

/// Characters without the separator join the piece in progress.
pub proof fn lemma_pieces_absorb(p: Seq<char>, rest: Seq<char>, c: char, cur: Seq<char>)
    requires
        !p.contains(c),
    ensures
        nonempty_pieces(p + rest, c, cur) == nonempty_pieces(rest, c, cur + p),
    decreases p.len(),
{
    if p.len() == 0 {
        assert(p + rest =~= rest);
        assert(cur + p =~= cur);
    } else {
        let p1 = p.drop_first();
        assert(!p1.contains(c)) by {
            if p1.contains(c) {
                let k = choose|k: int| 0 <= k < p1.len() && p1[k] == c;
                assert(p[k + 1] == c);
            }
        }
        assert((p + rest)[0] == p[0]);
        assert(p[0] != c);
        assert((p + rest).drop_first() =~= p1 + rest);
        lemma_pieces_absorb(p1, rest, c, cur.push(p[0]));
        assert(cur.push(p[0]) + p1 =~= cur + p);
    }
}

/// The decimal digits of a number are digits, at least one, and denote it.
pub proof fn lemma_decimal_denotes(n: nat)
    ensures
        decimal(n).len() > 0,
        all_digits(decimal(n)),
        digits_value(decimal(n)) == n,
    decreases n,
{
    let k = n % 10;
    assert((digit_char(k) as int) - ('0' as int) == k);
    if n < 10 {
        assert(k == n);
        assert(decimal(n).drop_last() =~= Seq::<char>::empty());
        assert(digits_value(Seq::<char>::empty()) == 0);
        assert(decimal(n).last() == digit_char(k));
    } else {
        lemma_decimal_denotes(n / 10);
        let d = decimal(n / 10);
        let s = d.push(digit_char(n % 10));
        assert(s.drop_last() =~= d);
        assert(decimal(n) == s);
        assert(s.last() == digit_char(k));
        assert(digits_value(s) == digits_value(d) * 10 + k);
        assert(n == (n / 10) * 10 + k);
        assert forall|i: int| 0 <= i < s.len() implies is_ascii_digit(#[trigger] s[i]) by {
            if i < d.len() {
                assert(s[i] == d[i]);
            }
        }
    }
}

/// A number written in decimal parses back to itself.
pub proof fn lemma_parse_decimal(n: u32)
    ensures
        spec_parse_u32(decimal(n as nat)) == Some(n),
{
    let d = decimal(n as nat);
    lemma_decimal_denotes(n as nat);
    assert(is_ascii_digit(d[0]));
    assert(parse_int_value(d, false) == Some(n as int));
}

/// Decimal digits hold no character outside `0`..`9`.
pub proof fn lemma_decimal_lacks(n: nat, c: char)
    requires
        !is_ascii_digit(c),
    ensures
        !decimal(n).contains(c),
{
    lemma_decimal_denotes(n);
    if decimal(n).contains(c) {
        let k = choose|k: int| 0 <= k < decimal(n).len() && decimal(n)[k] == c;
        assert(is_ascii_digit(decimal(n)[k]));
    }
}

/// Decoding a stream token gives back what was encoded, when the token and
/// the provider name are non-empty and hold neither `:` nor `@`.
pub proof fn lemma_stream_token_round_trip(
    virtual_id: u32,
    token: Seq<char>,
    provider_name: Seq<char>,
    stream_url: Seq<char>,
)
    requires
        token.len() > 0,
        provider_name.len() > 0,
        !token.contains(':'),
        !token.contains('@'),
        !provider_name.contains(':'),
        !provider_name.contains('@'),
    ensures
        spec_stream_info(stream_token_text(virtual_id, token, provider_name, stream_url))
            == Some((token, virtual_id, provider_name, stream_url)),
{
    let d = decimal(virtual_id as nat);
    let colon = seq![':'];
    let head = d + colon + token + colon + provider_name;
    let text = stream_token_text(virtual_id, token, provider_name, stream_url);
    assert(text =~= head + seq!['@'] + stream_url);
    lemma_decimal_lacks(virtual_id as nat, '@');
    lemma_decimal_lacks(virtual_id as nat, ':');
    lemma_decimal_denotes(virtual_id as nat);
    assert(!head.contains('@')) by {
        if head.contains('@') {
            let k = choose|k: int| 0 <= k < head.len() && head[k] == '@';
            if k < d.len() {
                assert(d[k] == '@');
            } else if k == d.len() {
            } else if k < d.len() + 1 + token.len() {
                assert(token[k - d.len() - 1] == '@');
            } else if k == d.len() + 1 + token.len() {
            } else {
                assert(provider_name[k - d.len() - 2 - token.len()] == '@');
            }
        }
    }
    lemma_split_after_prefix(head, stream_url, '@');
    let e = Seq::<char>::empty();
    assert(head =~= d + (colon + token + colon + provider_name));
    lemma_pieces_absorb(d, colon + token + colon + provider_name, ':', e);
    assert(e + d =~= d);
    let r1 = token + colon + provider_name;
    assert(colon + token + colon + provider_name =~= seq![':'] + r1);
    assert((seq![':'] + r1)[0] == ':');
    assert((seq![':'] + r1).drop_first() =~= r1);
    lemma_pieces_absorb(token, colon + provider_name, ':', e);
    assert(r1 =~= token + (colon + provider_name));
    assert(e + token =~= token);
    assert((colon + provider_name)[0] == ':');
    assert((colon + provider_name).drop_first() =~= provider_name);
    assert(provider_name =~= provider_name + e);
    lemma_pieces_absorb(provider_name, e, ':', e);
    assert(e + provider_name =~= provider_name);
    let pieces = nonempty_pieces(head, ':', e);
    assert(pieces =~= seq![d] + (seq![token] + seq![provider_name]));
    lemma_parse_decimal(virtual_id);
}

/// Reading the session cookie from a `Cookie` header that holds just the
/// stored cookie gives back the stored value, when that value holds no `;`
/// and no surrounding white space.
pub proof fn lemma_session_cookie_round_trip(cookie: Seq<char>)
    requires
        !cookie.contains(';'),
        trim(cookie) == cookie,
    ensures
        spec_session_cookie(session_cookie_prefix() + cookie + session_cookie_attributes()) == Some(cookie),
{
    reveal_strlit("m3uflt_session=");
    reveal_strlit("; Max-Age=10800; HttpOnly; SameSite=Strict");
    let pre = session_cookie_prefix();
    let part = pre + cookie;
    let attrs = session_cookie_attributes();
    let rest = attrs.drop_first();
    assert(attrs =~= seq![';'] + rest);
    assert(pre + cookie + attrs =~= part + seq![';'] + rest);
    assert(!part.contains(';')) by {
        if part.contains(';') {
            let k = choose|k: int| 0 <= k < part.len() && part[k] == ';';
            if k >= pre.len() {
                assert(cookie[k - pre.len()] == ';');
            }
        }
    }
    lemma_split_after_prefix(part, rest, ';');
    lemma_leading_ws_bound(cookie);
    lemma_trailing_ws_bound(cookie.skip(leading_ws(cookie) as int));
    assert(leading_ws(cookie) == 0);
    assert(cookie.skip(0) =~= cookie);
    assert(trailing_ws(cookie) == 0);
    assert(part[0] == 'm');
    assert(!is_whitespace(part[0]));
    assert(leading_ws(part) == 0);
    if cookie.len() > 0 {
        assert(part.last() == cookie.last());
    } else {
        assert(part.last() == '=');
    }
    assert(trailing_ws(part) == 0);
    assert(part.skip(0) =~= part);
    assert(part.skip(0).take(part.len() as int) =~= part);
    assert(trim(part) == part);
    assert(part.take(pre.len() as int) =~= pre);
    assert(part.skip(pre.len() as int) =~= cookie);
}

} // verus!
