//! Xtream player API requests: the stream context, the request parameters,
//! and the provider urls a request is forwarded or redirected to.

use vstd::prelude::*;
use crate::config::ConfigInputOptions;
use crate::playlist::XtreamCluster;
use crate::text::{
    after_char, before_char, chars_of, decimal, find_char_from, last_index_of, lemma_split_at_found,
    parse_u32_range, push_decimal, push_str, rfind_char, spec_parse_u32, str_eq, string_of_range,
};

verus! {

/// What a stream request asks for.
#[derive(Clone, Copy, Debug, PartialEq, Eq, Structural)]
pub enum XtreamApiStreamContext {
    LiveAlt,
    Live,
    Movie,
    Series,
    Timeshift,
}

/// The path segment of a context.
pub open spec fn context_text(c: XtreamApiStreamContext) -> Seq<char> {
    match c {
        XtreamApiStreamContext::LiveAlt | XtreamApiStreamContext::Live => "live"@,
        XtreamApiStreamContext::Movie => "movie"@,
        XtreamApiStreamContext::Series => "series"@,
        XtreamApiStreamContext::Timeshift => "timeshift"@,
    }
}

/// The context a lower-case path segment names.
pub open spec fn spec_context_from_lowercase(s: Seq<char>) -> Option<XtreamApiStreamContext> {
    if s == "live"@ {
        Some(XtreamApiStreamContext::Live)
    } else if s == "movie"@ {
        Some(XtreamApiStreamContext::Movie)
    } else if s == "series"@ {
        Some(XtreamApiStreamContext::Series)
    } else if s == "timeshift"@ {
        Some(XtreamApiStreamContext::Timeshift)
    } else {
        None
    }
}

/// The message of the error for a segment that names no context.
pub open spec fn unknown_context_message(s: Seq<char>) -> Seq<char> {
    "Unknown CounterModifier: "@ + s
}

/// What `str::to_lowercase` returns (Unicode lower-case mapping, with the
/// final-sigma rule), a function of the string alone.
pub uninterp spec fn str_to_lowercase(s: Seq<char>) -> Seq<char>;

/// `str::to_lowercase`.
#[verifier::external_body]
fn to_lowercase(s: &str) -> (r: String)
    ensures
        r@ == str_to_lowercase(s@),
{
    s.to_lowercase()
}

impl XtreamApiStreamContext {
    /// The path segment of the context.
    pub fn to_string(&self) -> (r: String)
        ensures
            r@ == context_text(*self),
    {
        let mut s = String::new();
        match self {
            XtreamApiStreamContext::LiveAlt | XtreamApiStreamContext::Live => push_str(&mut s, "live"),
            XtreamApiStreamContext::Movie => push_str(&mut s, "movie"),
            XtreamApiStreamContext::Series => push_str(&mut s, "series"),
            XtreamApiStreamContext::Timeshift => push_str(&mut s, "timeshift"),
        }
        s
    }

    /// The context that `lower`, the lower-case form of the segment `text`,
    /// names; otherwise the error message, which quotes `text`.
    pub fn from_lowercase(lower: &str, text: &str) -> (r: Result<Self, String>)
        ensures
            match spec_context_from_lowercase(lower@) {
                Some(c) => r == Ok::<Self, String>(c),
                None => r is Err && r->Err_0@ == unknown_context_message(text@),
            },
    {
        if str_eq(lower, "live") {
            Ok(XtreamApiStreamContext::Live)
        } else if str_eq(lower, "movie") {
            Ok(XtreamApiStreamContext::Movie)
        } else if str_eq(lower, "series") {
            Ok(XtreamApiStreamContext::Series)
        } else if str_eq(lower, "timeshift") {
            Ok(XtreamApiStreamContext::Timeshift)
        } else {
            let mut msg = String::new();
            push_str(&mut msg, "Unknown CounterModifier: ");
            push_str(&mut msg, text);
            Err(msg)
        }
    }

    /// The context a path segment names, in any letter case.
    pub fn from_str(s: &str) -> (r: Result<Self, String>)
        ensures
            match spec_context_from_lowercase(str_to_lowercase(s@)) {
                Some(c) => r == Ok::<Self, String>(c),
                None => r is Err && r->Err_0@ == unknown_context_message(s@),
            },
    {
        let lower = to_lowercase(s);
        Self::from_lowercase(lower.as_str(), s)
    }

    /// The context of the entries of a cluster.
    pub fn from_cluster(cluster: XtreamCluster) -> (r: Self)
        ensures
            r == (match cluster {
                XtreamCluster::Live => XtreamApiStreamContext::Live,
                XtreamCluster::Video => XtreamApiStreamContext::Movie,
                XtreamCluster::Series => XtreamApiStreamContext::Series,
            }),
    {
        match cluster {
            XtreamCluster::Live => XtreamApiStreamContext::Live,
            XtreamCluster::Video => XtreamApiStreamContext::Movie,
            XtreamCluster::Series => XtreamApiStreamContext::Series,
        }
    }
}

/// The parameters of a player API stream request.
pub struct XtreamApiStreamRequest<'a> {
    pub context: XtreamApiStreamContext,
    pub access_token: bool,
    pub username: &'a str,
    pub password: &'a str,
    pub stream_id: &'a str,
    pub action_path: &'a str,
}

impl<'a> XtreamApiStreamRequest<'a> {
    /// A request made with a user's credentials.
    pub fn from(
        context: XtreamApiStreamContext,
        username: &'a str,
        password: &'a str,
        stream_id: &'a str,
        action_path: &'a str,
    ) -> (r: Self)
        ensures
            r.context == context,
            !r.access_token,
            r.username == username,
            r.password == password,
            r.stream_id == stream_id,
            r.action_path == action_path,
    {
        XtreamApiStreamRequest { context, access_token: false, username, password, stream_id, action_path }
    }

    /// A request made with an access token in place of the credentials:
    /// the user name is empty and the token stands in the password.
    pub fn from_access_token(
        context: XtreamApiStreamContext,
        password: &'a str,
        stream_id: &'a str,
        action_path: &'a str,
    ) -> (r: Self)
        ensures
            r.context == context,
            !r.access_token,
            r.username@ == Seq::<char>::empty(),
            r.password == password,
            r.stream_id == stream_id,
            r.action_path == action_path,
    {
        proof {
            reveal_strlit("");
        }
        XtreamApiStreamRequest { context, access_token: false, username: "", password, stream_id, action_path }
    }
}

/// The account of an input at its provider.
pub struct InputUserInfo {
    pub base_url: String,
    pub username: String,
    pub password: String,
}

/// The context segment of a provider url: live streams carry `live` unless
/// the input's options switch the prefix off.
pub open spec fn provider_context_segment(
    context: XtreamApiStreamContext,
    options: Option<ConfigInputOptions>,
) -> Seq<char> {
    match context {
        XtreamApiStreamContext::LiveAlt | XtreamApiStreamContext::Live => {
            if options matches Some(o) && !o.xtream_live_stream_use_prefix {
                Seq::<char>::empty()
            } else {
                "live"@
            }
        },
        _ => context_text(context),
    }
}

/// The provider url of a player API stream:
/// `{base_url}/{context}/{username}/{password}/{action_path}`, the context
/// and its slash left out when the segment is empty; without an account the
/// fallback url, unless it is empty.
pub open spec fn spec_player_api_stream_url(
    user_info: Option<(Seq<char>, Seq<char>, Seq<char>)>,
    options: Option<ConfigInputOptions>,
    context: XtreamApiStreamContext,
    action_path: Seq<char>,
    fallback_url: Seq<char>,
) -> Option<Seq<char>> {
    match user_info {
        Some((base_url, username, password)) => {
            let ctx = provider_context_segment(context, options);
            let ctx_path = if ctx.len() == 0 { ctx } else { ctx + seq!['/'] };
            Some(base_url + seq!['/'] + ctx_path + username + seq!['/'] + password + seq!['/'] + action_path)
        },
        None => if fallback_url.len() > 0 { Some(fallback_url) } else { None },
    }
}

/// The view of an optional account.
pub open spec fn user_info_view(u: Option<&InputUserInfo>) -> Option<(Seq<char>, Seq<char>, Seq<char>)> {
    match u {
        Some(i) => Some((i.base_url@, i.username@, i.password@)),
        None => None,
    }
}

/// The view of an optional string.
pub open spec fn opt_str_view(o: Option<String>) -> Option<Seq<char>> {
    match o {
        Some(s) => Some(s@),
        None => None,
    }
}

/// Builds the provider url of a player API stream.
pub fn get_xtream_player_api_stream_url(
    user_info: Option<&InputUserInfo>,
    options: Option<ConfigInputOptions>,
    context: XtreamApiStreamContext,
    action_path: &str,
    fallback_url: &str,
) -> (r: Option<String>)
    ensures
        opt_str_view(r) == spec_player_api_stream_url(user_info_view(user_info), options, context, action_path@, fallback_url@),
{
    match user_info {
        Some(info) => {
            let use_prefix = match options {
                Some(o) => o.xtream_live_stream_use_prefix,
                None => true,
            };
            let mut s = String::new();
            push_str(&mut s, info.base_url.as_str());
            push_str(&mut s, "/");
            match context {
                XtreamApiStreamContext::LiveAlt | XtreamApiStreamContext::Live => {
                    if use_prefix {
                        push_str(&mut s, "live/");
                    }
                },
                _ => {
                    let ctx = context.to_string();
                    push_str(&mut s, ctx.as_str());
                    push_str(&mut s, "/");
                },
            }
            push_str(&mut s, info.username.as_str());
            push_str(&mut s, "/");
            push_str(&mut s, info.password.as_str());
            push_str(&mut s, "/");
            push_str(&mut s, action_path);
            proof {
                reveal_strlit("live");
                reveal_strlit("live/");
                reveal_strlit("movie");
                reveal_strlit("series");
                reveal_strlit("timeshift");
                reveal_strlit("/");
                let ctx = provider_context_segment(context, options);
                let ctx_path = if ctx.len() == 0 { ctx } else { ctx + seq!['/'] };
                assert(s@ =~= info.base_url@ + seq!['/'] + ctx_path + info.username@ + seq!['/']
                    + info.password@ + seq!['/'] + action_path@);
            }
            Some(s)
        },
        None => {
            if !fallback_url.is_empty() {
                let mut s = String::new();
                push_str(&mut s, fallback_url);
                proof {
                    assert(s@ =~= fallback_url@);
                }
                Some(s)
            } else {
                None
            }
        },
    }
}

/// The stream id and the extension of a `stream_id` path segment such as
/// `1234.ts`: split at the last `.`; an extension of the dot alone counts as
/// none.
pub open spec fn spec_separate_number_and_remainder(s: Seq<char>) -> (Seq<char>, Option<Seq<char>>) {
    let dot = last_index_of(s, '.');
    if dot < 0 {
        (s, None)
    } else {
        let rest = s.subrange(dot, s.len() as int);
        (s.subrange(0, dot), if rest.len() < 2 { None } else { Some(rest) })
    }
}

/// Splits a `stream_id` path segment into the id and the extension.
pub fn separate_number_and_remainder(input: &str) -> (r: (String, Option<String>))
    ensures
        (r.0@, opt_str_view(r.1)) == spec_separate_number_and_remainder(input@),
{
    let v = chars_of(input);
    let n = v.len();
    match rfind_char(&v, '.') {
        None => {
            proof {
                assert(v@.subrange(0, n as int) =~= v@);
            }
            (string_of_range(&v, 0, n), None)
        },
        Some(dot) => {
            let number_part = string_of_range(&v, 0, dot);
            if n - dot < 2 {
                (number_part, None)
            } else {
                (number_part, Some(string_of_range(&v, dot, n)))
            }
        },
    }
}

/// The document id and the field name of a resource name such as
/// `1234_backdrop_path_1`: the digits before the first `_` and what follows it.
pub open spec fn spec_doc_id_and_field_name(s: Seq<char>) -> Option<(u32, Seq<char>)> {
    match after_char(s, '_') {
        None => None,
        Some(field) => match spec_parse_u32(before_char(s, '_')) {
            Some(id) => Some((id, field)),
            None => None,
        },
    }
}

/// Reads the document id and the field name of a resource name.
pub fn get_doc_id_and_field_name(input: &str) -> (r: Option<(u32, String)>)
    ensures
        match r {
            Some((id, field)) => spec_doc_id_and_field_name(input@) == Some((id, field@)),
            None => spec_doc_id_and_field_name(input@) is None,
        },
{
    let v = chars_of(input);
    let n = v.len();
    let pos = find_char_from(&v, '_', 0);
    proof {
        lemma_split_at_found(v@, '_', 0, pos as int);
        assert(v@.subrange(0, n as int) =~= v@);
    }
    if pos == n {
        return None;
    }
    match parse_u32_range(&v, 0, pos) {
        Some(id) => Some((id, string_of_range(&v, pos + 1, n))),
        None => None,
    }
}

/// The first of three values that is not empty, else the third.
pub fn get_non_empty<'a>(first: &'a str, second: &'a str, third: &'a str) -> (r: &'a str)
    ensures
        r == (if first@.len() > 0 { first } else if second@.len() > 0 { second } else { third }),
{
    if !first.is_empty() {
        first
    } else if !second.is_empty() {
        second
    } else {
        third
    }
}

/// The path a stream is asked for at the provider:
/// `{provider_id}{extension}`, behind `{action_path}/` when there is one.
pub open spec fn spec_query_path(action_path: Seq<char>, provider_id: u32, extension: Seq<char>) -> Seq<char> {
    if action_path.len() == 0 {
        decimal(provider_id as nat) + extension
    } else {
        action_path + seq!['/'] + decimal(provider_id as nat) + extension
    }
}

/// Builds the path a stream is asked for at the provider.
pub fn get_query_path(action_path: &str, provider_id: u32, extension: &str) -> (r: String)
    ensures
        r@ == spec_query_path(action_path@, provider_id, extension@),
{
    let mut s = String::new();
    if !action_path.is_empty() {
        push_str(&mut s, action_path);
        push_str(&mut s, "/");
    }
    push_decimal(&mut s, provider_id);
    push_str(&mut s, extension);
    proof {
        reveal_strlit("/");
        assert(s@ =~= spec_query_path(action_path@, provider_id, extension@));
    }
    s
}

/// The url a series stream is redirected to:
/// `{url}/series/{username}/{password}/{provider_id}{extension}`, missing
/// credentials written as empty.
pub open spec fn spec_series_redirect_url(
    url: Seq<char>,
    username: Seq<char>,
    password: Seq<char>,
    provider_id: u32,
    extension: Seq<char>,
) -> Seq<char> {
    url + "/series/"@ + username + seq!['/'] + password + seq!['/'] + decimal(provider_id as nat) + extension
}

/// The view of an optional string, empty when absent.
pub open spec fn or_empty(o: Option<String>) -> Seq<char> {
    match o {
        Some(s) => s@,
        None => Seq::<char>::empty(),
    }
}

/// Builds the url a series stream is redirected to.
pub fn series_redirect_url(
    url: &str,
    username: &Option<String>,
    password: &Option<String>,
    provider_id: u32,
    extension: &str,
) -> (r: String)
    ensures
        r@ == spec_series_redirect_url(url@, or_empty(*username), or_empty(*password), provider_id, extension@),
{
    let mut s = String::new();
    push_str(&mut s, url);
    push_str(&mut s, "/series/");
    match username {
        Some(u) => push_str(&mut s, u.as_str()),
        None => {},
    }
    push_str(&mut s, "/");
    match password {
        Some(p) => push_str(&mut s, p.as_str()),
        None => {},
    }
    push_str(&mut s, "/");
    push_decimal(&mut s, provider_id);
    push_str(&mut s, extension);
    proof {
        reveal_strlit("/");
        assert(s@ =~= spec_series_redirect_url(url@, or_empty(*username), or_empty(*password), provider_id, extension@));
    }
    s
}

/// The extension a provider stream is asked for with: the one the request
/// named, else the one of the provider's url, else none.
pub open spec fn spec_chosen_extension(stream_ext: Option<&str>, url_ext: Option<&str>) -> Seq<char> {
    match stream_ext {
        Some(e) => e@,
        None => match url_ext {
            Some(e) => e@,
            None => Seq::<char>::empty(),
        },
    }
}

/// Builds the path a redirected stream is asked for at the provider, with
/// the extension the request named, else the extension of the provider's
/// url (`url_ext`, as read from the url), else none.
pub fn redirect_query_path(action_path: &str, provider_id: u32, stream_ext: Option<&str>, url_ext: Option<&str>) -> (r: String)
    ensures
        r@ == spec_query_path(action_path@, provider_id, spec_chosen_extension(stream_ext, url_ext)),
{
    let extension: &str = match stream_ext {
        Some(e) => e,
        None => match url_ext {
            Some(e) => e,
            None => "",
        },
    };
    proof {
        reveal_strlit("");
    }
    get_query_path(action_path, provider_id, extension)
}

/// The provider url of a live stream: `{base}/live/{user}/{pass}/{path}`,
/// or `{base}/{user}/{pass}/{path}` when the input's options switch the
/// live prefix off, for either live context; a movie, series or timeshift
/// stream always carries its own segment. Without an account the
/// fallback url is used, unless it is empty.
pub proof fn lemma_player_api_stream_url_segments(
    base: Seq<char>,
    user: Seq<char>,
    pass: Seq<char>,
    options: Option<ConfigInputOptions>,
    context: XtreamApiStreamContext,
    action_path: Seq<char>,
    fallback_url: Seq<char>,
)
    ensures
        (context is Live || context is LiveAlt) && (options matches Some(o) && !o.xtream_live_stream_use_prefix)
            ==> spec_player_api_stream_url(Some((base, user, pass)), options, context, action_path, fallback_url)
                == Some(base + seq!['/'] + user + seq!['/'] + pass + seq!['/'] + action_path),
        (context is Live || context is LiveAlt) && !(options matches Some(o) && !o.xtream_live_stream_use_prefix)
            ==> spec_player_api_stream_url(Some((base, user, pass)), options, context, action_path, fallback_url)
                == Some(base + seq!['/', 'l', 'i', 'v', 'e', '/'] + user + seq!['/'] + pass + seq!['/'] + action_path),
        context is Movie ==> spec_player_api_stream_url(Some((base, user, pass)), options, context, action_path, fallback_url)
            == Some(base + seq!['/', 'm', 'o', 'v', 'i', 'e', '/'] + user + seq!['/'] + pass + seq!['/'] + action_path),
        context is Series ==> spec_player_api_stream_url(Some((base, user, pass)), options, context, action_path, fallback_url)
            == Some(base + seq!['/', 's', 'e', 'r', 'i', 'e', 's', '/'] + user + seq!['/'] + pass + seq!['/'] + action_path),
        context is Timeshift ==> spec_player_api_stream_url(Some((base, user, pass)), options, context, action_path, fallback_url)
            == Some(base + seq!['/', 't', 'i', 'm', 'e', 's', 'h', 'i', 'f', 't', '/'] + user + seq!['/'] + pass + seq!['/'] + action_path),
        spec_player_api_stream_url(None, options, context, action_path, fallback_url)
            == (if fallback_url.len() > 0 { Some(fallback_url) } else { None::<Seq<char>> }),
{
    reveal_strlit("live");
    reveal_strlit("movie");
    reveal_strlit("series");
    reveal_strlit("timeshift");
    assert(base + seq!['/'] + Seq::<char>::empty() + user =~= base + seq!['/'] + user);
    assert(base + seq!['/'] + ("live"@ + seq!['/']) + user =~= base + seq!['/', 'l', 'i', 'v', 'e', '/'] + user);
    assert(base + seq!['/'] + ("movie"@ + seq!['/']) + user =~= base + seq!['/', 'm', 'o', 'v', 'i', 'e', '/'] + user);
    assert(base + seq!['/'] + ("series"@ + seq!['/']) + user =~= base + seq!['/', 's', 'e', 'r', 'i', 'e', 's', '/'] + user);
    assert(base + seq!['/'] + ("timeshift"@ + seq!['/']) + user
        =~= base + seq!['/', 't', 'i', 'm', 'e', 's', 'h', 'i', 'f', 't', '/'] + user);
}

} // verus!
