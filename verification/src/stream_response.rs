//! The decisions taken while a stream request is answered: which provider
//! url is opened, what a client's permission becomes, and when a client
//! stream ends.

use vstd::prelude::*;
use crate::playlist::PlaylistItemType;
use crate::provider_lineup::ProviderAllocation;
use crate::text::{replace_all, spec_replace, trim, trim_str, spec_parse_u32, parse_u32, push_str};
use crate::user_manager::UserConnectionPermission;
use crate::xtream::{
    InputUserInfo, opt_str_view, separate_number_and_remainder, spec_separate_number_and_remainder,
    user_info_view,
};

verus! {

/// The url of a stream at an alias account: the input's base url, user
/// name and password replaced, in that order, by the alias's; unchanged when
/// either account is unknown.
pub open spec fn spec_alternative_url(
    stream_url: Seq<char>,
    input: Option<(Seq<char>, Seq<char>, Seq<char>)>,
    alias: Option<(Seq<char>, Seq<char>, Seq<char>)>,
) -> Seq<char> {
    match (input, alias) {
        (Some((base, user, pass)), Some((alt_base, alt_user, alt_pass))) => {
            spec_replace(spec_replace(spec_replace(stream_url, base, alt_base), user, alt_user), pass, alt_pass)
        },
        _ => stream_url,
    }
}

/// The url of a stream at an alias account of the same provider.
pub fn get_stream_alternative_url(
    stream_url: &str,
    input_user_info: Option<&InputUserInfo>,
    alias_user_info: Option<&InputUserInfo>,
) -> (r: String)
    ensures
        r@ == spec_alternative_url(stream_url@, user_info_view(input_user_info), user_info_view(alias_user_info)),
{
    match (input_user_info, alias_user_info) {
        (Some(input), Some(alias)) => {
            let modified = replace_all(stream_url, input.base_url.as_str(), alias.base_url.as_str());
            let modified = replace_all(modified.as_str(), input.username.as_str(), alias.username.as_str());
            replace_all(modified.as_str(), input.password.as_str(), alias.password.as_str())
        },
        _ => {
            let mut s = String::new();
            push_str(&mut s, stream_url);
            proof {
                assert(s@ =~= stream_url@);
            }
            s
        },
    }
}

/// How a stream request is served once a provider connection was asked for.
pub enum StreamingOption {
    /// No connection is left: a custom video answers.
    Custom,
    /// A connection is open: the provider's name and the url to open.
    Available(Option<String>, String),
    /// A connection in the grace period: the provider's name and the url.
    GracePeriod(Option<String>, String),
}

/// The abstract value of a streaming option.
pub enum StreamingOptionView {
    Custom,
    Available(Option<Seq<char>>, Seq<char>),
    GracePeriod(Option<Seq<char>>, Seq<char>),
}

impl View for StreamingOption {
    type V = StreamingOptionView;

    open spec fn view(&self) -> StreamingOptionView {
        match self {
            StreamingOption::Custom => StreamingOptionView::Custom,
            StreamingOption::Available(p, u) => StreamingOptionView::Available(opt_str_view(*p), u@),
            StreamingOption::GracePeriod(p, u) => StreamingOptionView::GracePeriod(opt_str_view(*p), u@),
        }
    }
}

/// The provider and url a granted connection streams from: a forced
/// provider, or the input itself, keep the input's name and url; an alias
/// gives its own name and the url moved to its account.
pub open spec fn spec_provider_and_url(
    forced: bool,
    input_id: u16,
    input_name: Seq<char>,
    provider_id: u16,
    provider_name: Seq<char>,
    stream_url: Seq<char>,
    input_user_info: Option<(Seq<char>, Seq<char>, Seq<char>)>,
    alias_user_info: Option<(Seq<char>, Seq<char>, Seq<char>)>,
) -> (Seq<char>, Seq<char>) {
    if forced || provider_id == input_id {
        (input_name, stream_url)
    } else {
        (provider_name, spec_alternative_url(stream_url, input_user_info, alias_user_info))
    }
}

/// Decides how a stream request is served from the outcome of the
/// connection request (`allocation`). `alias_user_info` is the account of
/// the provider that was granted.
pub fn get_streaming_option(
    allocation: &ProviderAllocation,
    forced: bool,
    input_id: u16,
    input_name: &str,
    stream_url: &str,
    input_user_info: Option<&InputUserInfo>,
    alias_user_info: Option<&InputUserInfo>,
) -> (r: StreamingOption)
    ensures
        match allocation {
            ProviderAllocation::Exhausted => r@ is Custom,
            ProviderAllocation::Available(p) => {
                let (name, url) = spec_provider_and_url(forced, input_id, input_name@, p.id, p.name@,
                    stream_url@, user_info_view(input_user_info), user_info_view(alias_user_info));
                r@ == StreamingOptionView::Available(Some(name), url)
            },
            ProviderAllocation::GracePeriod(p) => {
                let (name, url) = spec_provider_and_url(forced, input_id, input_name@, p.id, p.name@,
                    stream_url@, user_info_view(input_user_info), user_info_view(alias_user_info));
                r@ == StreamingOptionView::GracePeriod(Some(name), url)
            },
        },
{
    match allocation {
        ProviderAllocation::Exhausted => StreamingOption::Custom,
        ProviderAllocation::Available(p) | ProviderAllocation::GracePeriod(p) => {
            let (name, url) = if forced || p.id == input_id {
                let mut name = String::new();
                push_str(&mut name, input_name);
                let mut url = String::new();
                push_str(&mut url, stream_url);
                proof {
                    assert(name@ =~= input_name@);
                    assert(url@ =~= stream_url@);
                }
                (name, url)
            } else {
                (p.name.clone(), get_stream_alternative_url(stream_url, input_user_info, alias_user_info))
            };
            match allocation {
                ProviderAllocation::Available(_) => StreamingOption::Available(Some(name), url),
                _ => StreamingOption::GracePeriod(Some(name), url),
            }
        },
    }
}

/// Whether the option streams in a provider's grace period.
pub fn is_provider_grace_period(option: &StreamingOption) -> (r: bool)
    ensures
        r == (option@ is GracePeriod),
{
    match option {
        StreamingOption::GracePeriod(_, _) => true,
        _ => false,
    }
}

/// The item types whose requests stay with one provider: a cookie pins them
/// (HLS and DASH alternate playlist and segment requests, video and series
/// are sought in).
pub open spec fn is_provider_pinned_type(item_type: PlaylistItemType) -> bool {
    item_type is LiveHls || item_type is LiveDash || item_type is Video || item_type is Series
}

/// Whether requests of this item type stay with one provider.
pub fn is_provider_pinned(item_type: PlaylistItemType) -> (r: bool)
    ensures
        r == is_provider_pinned_type(item_type),
{
    match item_type {
        PlaylistItemType::LiveHls | PlaylistItemType::LiveDash | PlaylistItemType::Video
        | PlaylistItemType::Series => true,
        _ => false,
    }
}

/// The permission of a pinned request: a request that a valid cookie pins
/// to its provider is allowed; otherwise the user's permission, except that
/// a user in the grace period who already holds a grace token is exhausted.
pub fn pinned_connection_permission(
    pinned_by_cookie: bool,
    permission: UserConnectionPermission,
    holds_grace_token: bool,
) -> (r: UserConnectionPermission)
    ensures
        r == (if pinned_by_cookie {
            UserConnectionPermission::Allowed
        } else if permission is GracePeriod && holds_grace_token {
            UserConnectionPermission::Exhausted
        } else {
            permission
        }),
{
    if pinned_by_cookie {
        UserConnectionPermission::Allowed
    } else {
        match permission {
            UserConnectionPermission::GracePeriod => {
                if holds_grace_token {
                    UserConnectionPermission::Exhausted
                } else {
                    UserConnectionPermission::GracePeriod
                }
            },
            _ => permission,
        }
    }
}

/// The virtual id and the extension of a `stream_id` path segment: the part
/// before the last `.`, trimmed, must be a `u32`.
pub open spec fn spec_stream_id(s: Seq<char>) -> Option<(u32, Option<Seq<char>>)> {
    let (number, ext) = spec_separate_number_and_remainder(s);
    match spec_parse_u32(trim(number)) {
        Some(id) => Some((id, ext)),
        None => None,
    }
}

/// Reads the virtual id and the extension of a `stream_id` path segment.
pub fn parse_stream_id(stream_id: &str) -> (r: Option<(u32, Option<String>)>)
    ensures
        match r {
            Some((id, ext)) => spec_stream_id(stream_id@) == Some((id, opt_str_view(ext))),
            None => spec_stream_id(stream_id@) is None,
        },
{
    let (number, ext) = separate_number_and_remainder(stream_id);
    let trimmed = trim_str(number.as_str());
    match parse_u32(trimmed.as_str()) {
        Some(id) => Some((id, ext)),
        None => None,
    }
}

/// Ends a client stream once it has run for its duration.
pub struct TimeoutClientStream {
    duration_secs: u32,
}

impl TimeoutClientStream {
    /// The duration, in seconds.
    pub closed spec fn spec_duration_secs(&self) -> u32 {
        self.duration_secs
    }

    /// A limit of `duration` seconds.
    pub fn new(duration: u32) -> (r: Self)
        ensures
            r.spec_duration_secs() == duration,
    {
        TimeoutClientStream { duration_secs: duration }
    }

    /// Whether a stream that has run for `elapsed_nanos` nanoseconds ends:
    /// once the elapsed time exceeds the duration.
    pub fn is_expired(&self, elapsed_nanos: u128) -> (r: bool)
        ensures
            r == (elapsed_nanos > self.spec_duration_secs() * 1_000_000_000),
    {
        elapsed_nanos > (self.duration_secs as u128) * 1_000_000_000
    }
}

/// The verdict at the end of a grace period.
#[derive(Clone, Copy, Debug, PartialEq, Eq, Structural)]
pub enum GraceVerdict {
    /// The stream goes on.
    Continue,
    /// The provider is still over its limit: the provider's exhausted video
    /// is sent in place of the stream.
    ProviderExhausted,
    /// The user still holds more connections than allowed: the user's
    /// exhausted video is sent in place of the stream.
    UserExhausted,
}

/// Which checks run when a stream's grace period ends, as
/// `(provider, user)`: the provider is checked when the stream has a grace
/// period and a provider, the user when the user was in its grace period and
/// has a connection limit.
pub fn grace_period_checks(
    grace_period_millis: u64,
    input_name: &Option<String>,
    user_grace_period: bool,
    user_max_connections: u32,
) -> (r: (bool, bool))
    ensures
        r.0 == (grace_period_millis > 0 && input_name is Some),
        r.1 == (user_grace_period && user_max_connections > 0),
{
    let provider_check = grace_period_millis > 0 && match input_name {
        Some(_) => true,
        None => false,
    };
    (provider_check, user_grace_period && user_max_connections > 0)
}

/// The verdict at the end of a grace period: a provider still over its
/// limit wins over a user still over its limit.
pub fn grace_period_verdict(
    check_user: bool,
    user_connections: u32,
    user_max_connections: u32,
    check_provider: bool,
    provider_over_limit: bool,
) -> (r: GraceVerdict)
    ensures
        r == (if check_provider && provider_over_limit {
            GraceVerdict::ProviderExhausted
        } else if check_user && user_connections > user_max_connections {
            GraceVerdict::UserExhausted
        } else {
            GraceVerdict::Continue
        }),
{
    if check_provider && provider_over_limit {
        GraceVerdict::ProviderExhausted
    } else if check_user && user_connections > user_max_connections {
        GraceVerdict::UserExhausted
    } else {
        GraceVerdict::Continue
    }
}

/// Whether a request is a seek inside a stream that a cookie pins: never
/// for live streams; only with a cookie of this stream whose token the user
/// holds, and a range that does not start at byte 0.
pub open spec fn spec_is_seek(live: bool, cookie_valid: bool, range: Option<Seq<char>>) -> bool {
    !live && cookie_valid && (range matches Some(r) && !crate::text::starts_with(r, "bytes=0-"@))
}

/// Decides whether a request is a seek inside a pinned stream.
pub fn is_seek_request(live: bool, cookie_valid: bool, range: Option<&str>) -> (r: bool)
    ensures
        r == spec_is_seek(live, cookie_valid, match range { Some(s) => Some(s@), None => None }),
{
    if live || !cookie_valid {
        return false;
    }
    match range {
        None => false,
        Some(value) => {
            let v = crate::text::chars_of(value);
            let p = crate::text::chars_of("bytes=0-");
            proof {
                assert(v@.subrange(0, v@.len() as int) =~= v@);
            }
            !crate::text::range_starts_with(&v, 0, v.len(), &p)
        },
    }
}

/// Whether the stream token of an HLS request may be used: it must name
/// this stream, and a user who holds a token must hold this one.
pub fn hls_token_accepted(stream_virtual_id: u32, virtual_id: u32, user_token: &Option<String>, stream_token: &str) -> (r: bool)
    ensures
        r == (stream_virtual_id == virtual_id && match user_token {
            Some(t) => t@ == stream_token@,
            None => true,
        }),
{
    if stream_virtual_id != virtual_id {
        return false;
    }
    match user_token {
        Some(t) => crate::text::str_eq(t.as_str(), stream_token),
        None => true,
    }
}

/// The extension a redirect url is given.
#[derive(Clone, Copy, Debug, PartialEq, Eq, Structural)]
pub enum UrlExtension {
    Hls,
    Dash,
}

/// How an entry is answered with respect to redirects.
#[derive(Clone, Copy, Debug, PartialEq, Eq, Structural)]
pub enum RedirectPlan {
    /// No redirect: the stream is served through the proxy.
    Proxy,
    /// The request lacks the provider id it needs.
    BadRequest,
    /// An M3U entry goes to its provider url, given the HLS extension and
    /// then the DASH extension where the flags say so.
    M3u { hls: bool, dash: bool },
    /// An Xtream series entry goes to the provider's series url.
    XtreamSeries,
    /// An Xtream entry goes to its player API url at the next provider,
    /// with the extension replaced where one is named.
    XtreamStream(Option<UrlExtension>),
}

/// Whether a request asks for HLS: an HLS entry, or the HLS extension.
pub open spec fn is_hls_request(item_type: PlaylistItemType, ext_is_hls: bool) -> bool {
    item_type is LiveHls || ext_is_hls
}

/// Whether a request asks for DASH: a DASH entry that is not asked for as
/// HLS, or the DASH extension.
pub open spec fn is_dash_request(item_type: PlaylistItemType, ext_is_hls: bool, ext_is_dash: bool) -> bool {
    (!is_hls_request(item_type, ext_is_hls) && item_type is LiveDash) || ext_is_dash
}

/// The redirect decision for an entry: M3U targets redirect on request and
/// always for DASH; Xtream targets need the provider id and redirect on
/// request, series to the series url; anything else is proxied.
pub open spec fn spec_redirect_plan(
    target_type: crate::playlist::TargetType,
    redirect_request: bool,
    item_type: PlaylistItemType,
    ext_is_hls: bool,
    ext_is_dash: bool,
    has_provider_id: bool,
    cluster: crate::playlist::XtreamCluster,
) -> RedirectPlan {
    let hls = is_hls_request(item_type, ext_is_hls);
    let dash = is_dash_request(item_type, ext_is_hls, ext_is_dash);
    match target_type {
        crate::playlist::TargetType::M3u => {
            if redirect_request || dash { RedirectPlan::M3u { hls, dash } } else { RedirectPlan::Proxy }
        },
        crate::playlist::TargetType::Xtream => {
            if !has_provider_id {
                RedirectPlan::BadRequest
            } else if redirect_request {
                if cluster is Series {
                    RedirectPlan::XtreamSeries
                } else if dash {
                    RedirectPlan::XtreamStream(Some(if hls { UrlExtension::Hls } else { UrlExtension::Dash }))
                } else {
                    RedirectPlan::XtreamStream(None)
                }
            } else {
                RedirectPlan::Proxy
            }
        },
        crate::playlist::TargetType::Strm => RedirectPlan::Proxy,
    }
}

/// Decides whether and where an entry is redirected.
pub fn plan_redirect(
    target_type: crate::playlist::TargetType,
    redirect_request: bool,
    item_type: PlaylistItemType,
    ext_is_hls: bool,
    ext_is_dash: bool,
    has_provider_id: bool,
    cluster: crate::playlist::XtreamCluster,
) -> (r: RedirectPlan)
    ensures
        r == spec_redirect_plan(target_type, redirect_request, item_type, ext_is_hls, ext_is_dash, has_provider_id, cluster),
{
    let hls = match item_type {
        PlaylistItemType::LiveHls => true,
        _ => ext_is_hls,
    };
    let dash_type = match item_type {
        PlaylistItemType::LiveDash => true,
        _ => false,
    };
    let dash = (!hls && dash_type) || ext_is_dash;
    match target_type {
        crate::playlist::TargetType::M3u => {
            if redirect_request || dash { RedirectPlan::M3u { hls, dash } } else { RedirectPlan::Proxy }
        },
        crate::playlist::TargetType::Xtream => {
            if !has_provider_id {
                RedirectPlan::BadRequest
            } else if redirect_request {
                match cluster {
                    crate::playlist::XtreamCluster::Series => RedirectPlan::XtreamSeries,
                    _ => {
                        if dash {
                            RedirectPlan::XtreamStream(Some(if hls { UrlExtension::Hls } else { UrlExtension::Dash }))
                        } else {
                            RedirectPlan::XtreamStream(None)
                        }
                    },
                }
            } else {
                RedirectPlan::Proxy
            }
        },
        crate::playlist::TargetType::Strm => RedirectPlan::Proxy,
    }
}

/// Whether a player API stream request may go on.
#[derive(Clone, Copy, Debug, PartialEq, Eq, Structural)]
pub enum StreamAccess {
    Granted,
    /// The user may not use the API.
    Forbidden,
    /// The user has no connection left: the user's exhausted video answers.
    UserExhausted,
    /// The target has no Xtream output.
    BadRequest,
}

/// The access check of a player API stream request, in order: permission,
/// connections, then the target's output.
pub fn xtream_stream_access(
    permission_denied: bool,
    permission: UserConnectionPermission,
    has_xtream_output: bool,
) -> (r: StreamAccess)
    ensures
        r == (if permission_denied {
            StreamAccess::Forbidden
        } else if permission is Exhausted {
            StreamAccess::UserExhausted
        } else if !has_xtream_output {
            StreamAccess::BadRequest
        } else {
            StreamAccess::Granted
        }),
{
    if permission_denied {
        StreamAccess::Forbidden
    } else if match permission {
        UserConnectionPermission::Exhausted => true,
        _ => false,
    } {
        StreamAccess::UserExhausted
    } else if !has_xtream_output {
        StreamAccess::BadRequest
    } else {
        StreamAccess::Granted
    }
}

/// How a granted player API stream request is served.
#[derive(Clone, Copy, Debug, PartialEq, Eq, Structural)]
pub enum XtreamStreamPlan {
    /// Redirect to the provider's series url.
    RedirectSeries,
    /// Redirect to the entry's url with the HLS extension.
    RedirectHls,
    /// Redirect to the entry's url with the DASH extension.
    RedirectDash,
    /// Redirect to the entry's url.
    Redirect,
    /// Serve the HLS playlist through the proxy.
    HlsProxy,
    /// Serve the stream through the proxy.
    Proxy,
}

/// How a granted player API stream request is served: users in redirect
/// mode are redirected (series to the series url, HLS and DASH with their
/// extension); otherwise HLS goes through the playlist rewriter and
/// everything else is streamed.
pub open spec fn spec_xtream_stream_plan(
    redirect_user: bool,
    cluster: crate::playlist::XtreamCluster,
    item_type: PlaylistItemType,
    ext_is_hls: bool,
) -> XtreamStreamPlan {
    if redirect_user {
        if cluster is Series {
            XtreamStreamPlan::RedirectSeries
        } else if is_hls_request(item_type, ext_is_hls) {
            XtreamStreamPlan::RedirectHls
        } else if item_type is LiveDash {
            XtreamStreamPlan::RedirectDash
        } else {
            XtreamStreamPlan::Redirect
        }
    } else if is_hls_request(item_type, ext_is_hls) {
        XtreamStreamPlan::HlsProxy
    } else {
        XtreamStreamPlan::Proxy
    }
}

/// Decides how a granted player API stream request is served: users in
/// redirect mode are redirected (series to the series url, HLS and DASH
/// with their extension); otherwise HLS goes through the playlist rewriter
/// and everything else is streamed.
pub fn plan_xtream_stream(
    redirect_user: bool,
    cluster: crate::playlist::XtreamCluster,
    item_type: PlaylistItemType,
    ext_is_hls: bool,
) -> (r: XtreamStreamPlan)
    ensures
        r == spec_xtream_stream_plan(redirect_user, cluster, item_type, ext_is_hls),
{
    let hls = match item_type {
        PlaylistItemType::LiveHls => true,
        _ => ext_is_hls,
    };
    if redirect_user {
        match cluster {
            crate::playlist::XtreamCluster::Series => XtreamStreamPlan::RedirectSeries,
            _ => {
                if hls {
                    XtreamStreamPlan::RedirectHls
                } else {
                    match item_type {
                        PlaylistItemType::LiveDash => XtreamStreamPlan::RedirectDash,
                        _ => XtreamStreamPlan::Redirect,
                    }
                }
            },
        }
    } else if hls {
        XtreamStreamPlan::HlsProxy
    } else {
        XtreamStreamPlan::Proxy
    }
}

/// How a stream request through the proxy is answered.
#[derive(Clone, Copy, Debug, PartialEq, Eq, Structural)]
pub enum StreamResponsePlan {
    /// The user holds all its connections: stream the configured
    /// "user connections exhausted" video.
    ExhaustedVideo,
    /// The user holds all its connections and no such video is configured:
    /// answer 403.
    Forbidden,
    /// Serve the shared stream another client already receives.
    JoinShared,
    /// No stream could be opened: release the provider connection and
    /// answer 400.
    ReleaseAndBadRequest,
    /// Publish the opened stream for sharing and serve the shared copy.
    PublishShared,
    /// Serve the opened stream, with a session cookie that pins later
    /// requests to the provider where `set_cookie` says so.
    Stream { set_cookie: bool },
}

/// The answer to a stream request: a user without a free connection gets
/// the configured "connections exhausted" video (403 without one); a
/// shared stream that another client already receives is joined; a request
/// for which no stream could be opened releases its provider connection
/// and gets 400; an opened stream is shared when sharing is on, else served,
/// with a session cookie for the provider when the provider is known and
/// the item type stays with one provider.
pub open spec fn spec_stream_response_plan(
    permission: UserConnectionPermission,
    share_enabled: bool,
    joined_shared: bool,
    has_stream: bool,
    item_type: PlaylistItemType,
    provider_known: bool,
    custom_video_configured: bool,
) -> StreamResponsePlan {
    if permission is Exhausted {
        if custom_video_configured { StreamResponsePlan::ExhaustedVideo } else { StreamResponsePlan::Forbidden }
    } else if share_enabled && joined_shared {
        StreamResponsePlan::JoinShared
    } else if !has_stream {
        StreamResponsePlan::ReleaseAndBadRequest
    } else if share_enabled {
        StreamResponsePlan::PublishShared
    } else {
        StreamResponsePlan::Stream { set_cookie: provider_known && is_provider_pinned_type(item_type) }
    }
}

/// Decides how a stream request is answered, from what the request and the
/// outside steps gave: the user's permission, whether sharing is on for the
/// item, whether an existing shared stream was joined, whether a provider
/// stream could be opened, whether its provider is known, and whether the
/// "connections exhausted" video is configured. A value the request does not
/// reach (a stream opened after a shared one was joined) is not read.
pub fn plan_stream_response(
    permission: UserConnectionPermission,
    share_enabled: bool,
    joined_shared: bool,
    has_stream: bool,
    item_type: PlaylistItemType,
    provider_known: bool,
    custom_video_configured: bool,
) -> (r: StreamResponsePlan)
    ensures
        r == spec_stream_response_plan(permission, share_enabled, joined_shared, has_stream, item_type,
            provider_known, custom_video_configured),
{
    match permission {
        UserConnectionPermission::Exhausted => {
            if custom_video_configured {
                StreamResponsePlan::ExhaustedVideo
            } else {
                StreamResponsePlan::Forbidden
            }
        },
        _ => {
            if share_enabled && joined_shared {
                StreamResponsePlan::JoinShared
            } else if !has_stream {
                StreamResponsePlan::ReleaseAndBadRequest
            } else if share_enabled {
                StreamResponsePlan::PublishShared
            } else {
                let pinned = is_provider_pinned(item_type);
                StreamResponsePlan::Stream { set_cookie: provider_known && pinned }
            }
        },
    }
}

/// Whether the provider connection taken for a request is given back: when
/// no stream could be opened on it.
pub fn releases_provider(has_stream: bool) -> (r: bool)
    ensures
        r == !has_stream,
{
    !has_stream
}

/// How a player API stream request is answered as a whole.
#[derive(Clone, Copy, Debug, PartialEq, Eq, Structural)]
pub enum XtreamStreamRequestPlan {
    /// The user may not use the API: 403.
    Forbidden,
    /// The user has no connection left: the user's exhausted video answers.
    UserExhausted,
    /// 400: the target has no Xtream output, the stream id is no number, or
    /// no entry has that id. No redirect is issued and no provider
    /// connection is taken.
    BadRequest,
    /// The entry with this virtual id is served as the plan says.
    Serve { virtual_id: u32, plan: XtreamStreamPlan },
}

/// The answer to a player API stream request: the access check (permission,
/// connections, Xtream output), then the stream id, which must be a number,
/// then the entry found for it (`item`: its cluster and item type, `None`
/// when no entry has that id), then the serving plan.
pub open spec fn spec_xtream_stream_request_plan(
    permission_denied: bool,
    permission: UserConnectionPermission,
    has_xtream_output: bool,
    stream_id: Seq<char>,
    redirect_user: bool,
    item: Option<(crate::playlist::XtreamCluster, PlaylistItemType)>,
    ext_is_hls: bool,
) -> XtreamStreamRequestPlan {
    if permission_denied {
        XtreamStreamRequestPlan::Forbidden
    } else if permission is Exhausted {
        XtreamStreamRequestPlan::UserExhausted
    } else if !has_xtream_output {
        XtreamStreamRequestPlan::BadRequest
    } else {
        match spec_stream_id(stream_id) {
            None => XtreamStreamRequestPlan::BadRequest,
            Some((id, _)) => match item {
                None => XtreamStreamRequestPlan::BadRequest,
                Some((cluster, item_type)) => XtreamStreamRequestPlan::Serve {
                    virtual_id: id,
                    plan: spec_xtream_stream_plan(redirect_user, cluster, item_type, ext_is_hls),
                },
            },
        }
    }
}

/// Decides how a player API stream request is answered (see
/// `spec_xtream_stream_request_plan`).
pub fn plan_xtream_stream_request(
    permission_denied: bool,
    permission: UserConnectionPermission,
    has_xtream_output: bool,
    stream_id: &str,
    redirect_user: bool,
    item: Option<(crate::playlist::XtreamCluster, PlaylistItemType)>,
    ext_is_hls: bool,
) -> (r: XtreamStreamRequestPlan)
    ensures
        r == spec_xtream_stream_request_plan(permission_denied, permission, has_xtream_output, stream_id@,
            redirect_user, item, ext_is_hls),
{
    match xtream_stream_access(permission_denied, permission, has_xtream_output) {
        StreamAccess::Forbidden => XtreamStreamRequestPlan::Forbidden,
        StreamAccess::UserExhausted => XtreamStreamRequestPlan::UserExhausted,
        StreamAccess::BadRequest => XtreamStreamRequestPlan::BadRequest,
        StreamAccess::Granted => match parse_stream_id(stream_id) {
            None => XtreamStreamRequestPlan::BadRequest,
            Some((id, _)) => match item {
                None => XtreamStreamRequestPlan::BadRequest,
                Some((cluster, item_type)) => XtreamStreamRequestPlan::Serve {
                    virtual_id: id,
                    plan: plan_xtream_stream(redirect_user, cluster, item_type, ext_is_hls),
                },
            },
        },
    }
}

/// An opened stream that is not shared is served with a session cookie
/// exactly when its provider is known and its item type is one that stays
/// with one provider: HLS, DASH, video or series; live streams of other
/// kinds get none.
pub proof fn lemma_cookie_pins_hls_dash_video_series(
    permission: UserConnectionPermission,
    item_type: PlaylistItemType,
    provider_known: bool,
    custom_video_configured: bool,
)
    requires
        !(permission is Exhausted),
    ensures
        spec_stream_response_plan(permission, false, false, true, item_type, provider_known, custom_video_configured)
            == (StreamResponsePlan::Stream {
                set_cookie: provider_known && (item_type is LiveHls || item_type is LiveDash || item_type is Video
                    || item_type is Series),
            }),
        is_provider_pinned_type(item_type) <==> !(item_type is Live || item_type is LiveUnknown || item_type is Catchup
            || item_type is SeriesInfo),
{
}

/// The answer to a stream request, branch by branch: a user without a free
/// connection gets the exhausted video when one is configured, else 403,
/// whatever else holds; otherwise a joined shared stream is served when
/// sharing is on; otherwise no opened stream means release and 400; an
/// opened stream is published when sharing is on, and otherwise streamed.
pub proof fn lemma_stream_response_branches(
    permission: UserConnectionPermission,
    share_enabled: bool,
    joined_shared: bool,
    has_stream: bool,
    item_type: PlaylistItemType,
    provider_known: bool,
    custom_video_configured: bool,
)
    ensures
        ({
            let r = spec_stream_response_plan(permission, share_enabled, joined_shared, has_stream, item_type,
                provider_known, custom_video_configured);
            &&& r == StreamResponsePlan::ExhaustedVideo <==> (permission is Exhausted && custom_video_configured)
            &&& r == StreamResponsePlan::Forbidden <==> (permission is Exhausted && !custom_video_configured)
            &&& r == StreamResponsePlan::JoinShared <==> (!(permission is Exhausted) && share_enabled && joined_shared)
            &&& r == StreamResponsePlan::ReleaseAndBadRequest
                <==> (!(permission is Exhausted) && !(share_enabled && joined_shared) && !has_stream)
            &&& r == StreamResponsePlan::PublishShared
                <==> (!(permission is Exhausted) && share_enabled && !joined_shared && has_stream)
            &&& r is Stream <==> (!(permission is Exhausted) && !share_enabled && has_stream)
        }),
{
}

} // verus!
