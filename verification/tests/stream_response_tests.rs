use m3u_filter::config::InputType;
use m3u_filter::playlist::PlaylistItemType;
use m3u_filter::provider_config::ProviderInfo;
use m3u_filter::provider_lineup::ProviderAllocation;
use m3u_filter::stream_response::{
    get_stream_alternative_url, get_streaming_option, is_provider_grace_period, is_provider_pinned,
    parse_stream_id, pinned_connection_permission, plan_stream_response, plan_xtream_stream_request, releases_provider,
    StreamResponsePlan, XtreamStreamRequestPlan,
    StreamingOption, TimeoutClientStream,
};
use m3u_filter::user_manager::UserConnectionPermission;
use m3u_filter::xtream::InputUserInfo;

fn info(base: &str, user: &str, pass: &str) -> InputUserInfo {
    InputUserInfo { base_url: base.to_string(), username: user.to_string(), password: pass.to_string() }
}

fn provider(id: u16, name: &str) -> ProviderInfo {
    ProviderInfo {
        id,
        name: name.to_string(),
        url: "http://alias".to_string(),
        username: Some("au".to_string()),
        password: Some("ap".to_string()),
        input_type: InputType::Xtream,
    }
}

#[test]
fn alternative_url_moves_account() {
    let input = info("http://main", "mu", "mp");
    let alias = info("http://alias", "au", "ap");
    assert_eq!(
        get_stream_alternative_url("http://main/live/mu/mp/1.ts", Some(&input), Some(&alias)),
        "http://alias/live/au/ap/1.ts"
    );
    assert_eq!(get_stream_alternative_url("http://main/x", None, Some(&alias)), "http://main/x");
}

#[test]
fn streaming_option_choices() {
    let input = info("http://main", "mu", "mp");
    let alias = info("http://alias", "au", "ap");
    let url = "http://main/live/mu/mp/1.ts";
    match get_streaming_option(&ProviderAllocation::Exhausted, false, 1, "main", url, Some(&input), Some(&alias)) {
        StreamingOption::Custom => {},
        _ => panic!("expected a custom video"),
    }
    match get_streaming_option(&ProviderAllocation::Available(provider(1, "main")), false, 1, "main", url, Some(&input), Some(&alias)) {
        StreamingOption::Available(name, u) => {
            assert_eq!(name, Some("main".to_string()));
            assert_eq!(u, url);
        },
        _ => panic!("expected available"),
    }
    let alias_option = get_streaming_option(&ProviderAllocation::GracePeriod(provider(2, "alias_2")), false, 1, "main", url, Some(&input), Some(&alias));
    assert!(is_provider_grace_period(&alias_option));
    match alias_option {
        StreamingOption::GracePeriod(name, u) => {
            assert_eq!(name, Some("alias_2".to_string()));
            assert_eq!(u, "http://alias/live/au/ap/1.ts");
        },
        _ => panic!("expected grace period"),
    }
    match get_streaming_option(&ProviderAllocation::Available(provider(2, "alias_2")), true, 1, "main", url, Some(&input), Some(&alias)) {
        StreamingOption::Available(name, u) => {
            assert_eq!(name, Some("main".to_string()));
            assert_eq!(u, url);
        },
        _ => panic!("expected available"),
    }
}

#[test]
fn pinned_types_and_permission() {
    assert!(is_provider_pinned(PlaylistItemType::LiveHls));
    assert!(is_provider_pinned(PlaylistItemType::Series));
    assert!(!is_provider_pinned(PlaylistItemType::Live));
    assert!(!is_provider_pinned(PlaylistItemType::SeriesInfo));
    assert_eq!(pinned_connection_permission(true, UserConnectionPermission::Exhausted, true), UserConnectionPermission::Allowed);
    assert_eq!(pinned_connection_permission(false, UserConnectionPermission::GracePeriod, true), UserConnectionPermission::Exhausted);
    assert_eq!(pinned_connection_permission(false, UserConnectionPermission::GracePeriod, false), UserConnectionPermission::GracePeriod);
    assert_eq!(pinned_connection_permission(false, UserConnectionPermission::Allowed, true), UserConnectionPermission::Allowed);
}

#[test]
fn stream_ids() {
    assert_eq!(parse_stream_id("1234.ts"), Some((1234, Some(".ts".to_string()))));
    assert_eq!(parse_stream_id(" 77 "), Some((77, None)));
    assert_eq!(parse_stream_id("12."), Some((12, None)));
    assert_eq!(parse_stream_id("abc.ts"), None);
}

#[test]
fn timeout_stream() {
    let t = TimeoutClientStream::new(2);
    assert!(!t.is_expired(2_000_000_000));
    assert!(t.is_expired(2_000_000_001));
    assert!(!TimeoutClientStream::new(0).is_expired(0));
    assert!(TimeoutClientStream::new(0).is_expired(1));
}

use m3u_filter::stream_response::{grace_period_checks, grace_period_verdict, hls_token_accepted, is_seek_request, GraceVerdict};

#[test]
fn grace_checks_selection() {
    assert_eq!(grace_period_checks(500, &Some("p".to_string()), true, 2), (true, true));
    assert_eq!(grace_period_checks(0, &Some("p".to_string()), true, 0), (false, false));
    assert_eq!(grace_period_checks(500, &None, false, 2), (false, false));
}

#[test]
fn grace_verdicts() {
    assert_eq!(grace_period_verdict(true, 3, 2, true, true), GraceVerdict::ProviderExhausted);
    assert_eq!(grace_period_verdict(true, 3, 2, true, false), GraceVerdict::UserExhausted);
    assert_eq!(grace_period_verdict(true, 2, 2, true, false), GraceVerdict::Continue);
    assert_eq!(grace_period_verdict(false, 9, 2, false, true), GraceVerdict::Continue);
}

#[test]
fn seek_requests() {
    assert!(is_seek_request(false, true, Some("bytes=1000-")));
    assert!(!is_seek_request(false, true, Some("bytes=0-")));
    assert!(!is_seek_request(false, true, None));
    assert!(!is_seek_request(true, true, Some("bytes=1000-")));
    assert!(!is_seek_request(false, false, Some("bytes=1000-")));
}

#[test]
fn hls_tokens() {
    assert!(hls_token_accepted(4, 4, &None, "t"));
    assert!(hls_token_accepted(4, 4, &Some("t".to_string()), "t"));
    assert!(!hls_token_accepted(4, 4, &Some("u".to_string()), "t"));
    assert!(!hls_token_accepted(4, 5, &None, "t"));
}

use m3u_filter::playlist::{TargetType, XtreamCluster};
use m3u_filter::stream_response::{plan_redirect, plan_xtream_stream, xtream_stream_access, RedirectPlan, StreamAccess, UrlExtension, XtreamStreamPlan};

#[test]
fn redirect_plans() {
    assert_eq!(plan_redirect(TargetType::M3u, false, PlaylistItemType::Live, false, false, true, XtreamCluster::Live), RedirectPlan::Proxy);
    assert_eq!(plan_redirect(TargetType::M3u, true, PlaylistItemType::LiveHls, false, false, true, XtreamCluster::Live), RedirectPlan::M3u { hls: true, dash: false });
    assert_eq!(plan_redirect(TargetType::M3u, false, PlaylistItemType::LiveDash, false, false, true, XtreamCluster::Live), RedirectPlan::M3u { hls: false, dash: true });
    assert_eq!(plan_redirect(TargetType::M3u, false, PlaylistItemType::LiveDash, true, false, true, XtreamCluster::Live), RedirectPlan::Proxy);
    assert_eq!(plan_redirect(TargetType::Xtream, true, PlaylistItemType::Video, false, false, false, XtreamCluster::Video), RedirectPlan::BadRequest);
    assert_eq!(plan_redirect(TargetType::Xtream, true, PlaylistItemType::Series, false, false, true, XtreamCluster::Series), RedirectPlan::XtreamSeries);
    assert_eq!(plan_redirect(TargetType::Xtream, true, PlaylistItemType::Video, false, false, true, XtreamCluster::Video), RedirectPlan::XtreamStream(None));
    assert_eq!(plan_redirect(TargetType::Xtream, true, PlaylistItemType::LiveDash, false, false, true, XtreamCluster::Live), RedirectPlan::XtreamStream(Some(UrlExtension::Dash)));
    assert_eq!(plan_redirect(TargetType::Xtream, true, PlaylistItemType::LiveHls, false, true, true, XtreamCluster::Live), RedirectPlan::XtreamStream(Some(UrlExtension::Hls)));
    assert_eq!(plan_redirect(TargetType::Xtream, false, PlaylistItemType::Live, false, false, true, XtreamCluster::Live), RedirectPlan::Proxy);
    assert_eq!(plan_redirect(TargetType::Strm, true, PlaylistItemType::Live, false, false, true, XtreamCluster::Live), RedirectPlan::Proxy);
}

#[test]
fn xtream_stream_plans() {
    assert_eq!(xtream_stream_access(true, UserConnectionPermission::Allowed, true), StreamAccess::Forbidden);
    assert_eq!(xtream_stream_access(false, UserConnectionPermission::Exhausted, true), StreamAccess::UserExhausted);
    assert_eq!(xtream_stream_access(false, UserConnectionPermission::GracePeriod, false), StreamAccess::BadRequest);
    assert_eq!(xtream_stream_access(false, UserConnectionPermission::GracePeriod, true), StreamAccess::Granted);
    assert_eq!(plan_xtream_stream(true, XtreamCluster::Series, PlaylistItemType::Series, false), XtreamStreamPlan::RedirectSeries);
    assert_eq!(plan_xtream_stream(true, XtreamCluster::Live, PlaylistItemType::Live, true), XtreamStreamPlan::RedirectHls);
    assert_eq!(plan_xtream_stream(true, XtreamCluster::Live, PlaylistItemType::LiveDash, false), XtreamStreamPlan::RedirectDash);
    assert_eq!(plan_xtream_stream(true, XtreamCluster::Video, PlaylistItemType::Video, false), XtreamStreamPlan::Redirect);
    assert_eq!(plan_xtream_stream(false, XtreamCluster::Live, PlaylistItemType::LiveHls, false), XtreamStreamPlan::HlsProxy);
    assert_eq!(plan_xtream_stream(false, XtreamCluster::Series, PlaylistItemType::Series, false), XtreamStreamPlan::Proxy);
}

#[test]
fn stream_response_plans() {
    let (live, video) = (PlaylistItemType::Live, PlaylistItemType::Video);
    let (allowed, exhausted, grace) =
        (UserConnectionPermission::Allowed, UserConnectionPermission::Exhausted, UserConnectionPermission::GracePeriod);
    assert_eq!(plan_stream_response(exhausted, true, true, true, live, true, true), StreamResponsePlan::ExhaustedVideo);
    assert_eq!(plan_stream_response(exhausted, false, false, true, video, true, false), StreamResponsePlan::Forbidden);
    assert_eq!(plan_stream_response(allowed, true, true, false, live, false, true), StreamResponsePlan::JoinShared);
    assert_eq!(plan_stream_response(allowed, false, true, false, live, false, true), StreamResponsePlan::ReleaseAndBadRequest);
    assert_eq!(plan_stream_response(grace, true, false, false, live, true, true), StreamResponsePlan::ReleaseAndBadRequest);
    assert_eq!(plan_stream_response(allowed, true, false, true, live, true, true), StreamResponsePlan::PublishShared);
    assert_eq!(plan_stream_response(allowed, false, false, true, video, true, true), StreamResponsePlan::Stream { set_cookie: true });
    assert_eq!(plan_stream_response(allowed, false, false, true, video, false, true), StreamResponsePlan::Stream { set_cookie: false });
    assert_eq!(plan_stream_response(grace, false, false, true, live, true, true), StreamResponsePlan::Stream { set_cookie: false });
    assert!(releases_provider(false));
    assert!(!releases_provider(true));
}

#[test]
fn xtream_stream_request_plans() {
    let allowed = UserConnectionPermission::Allowed;
    let live = Some((m3u_filter::playlist::XtreamCluster::Live, PlaylistItemType::Live));
    assert_eq!(
        plan_xtream_stream_request(true, allowed, true, "12.ts", false, live, false),
        XtreamStreamRequestPlan::Forbidden
    );
    assert_eq!(
        plan_xtream_stream_request(false, UserConnectionPermission::Exhausted, true, "12.ts", false, live, false),
        XtreamStreamRequestPlan::UserExhausted
    );
    assert_eq!(
        plan_xtream_stream_request(false, allowed, false, "12.ts", false, live, false),
        XtreamStreamRequestPlan::BadRequest
    );
    assert_eq!(
        plan_xtream_stream_request(false, allowed, true, "abc.ts", false, live, false),
        XtreamStreamRequestPlan::BadRequest
    );
    assert_eq!(
        plan_xtream_stream_request(false, allowed, true, "12.ts", false, None, false),
        XtreamStreamRequestPlan::BadRequest
    );
    assert_eq!(
        plan_xtream_stream_request(false, allowed, true, " 12 .ts", false, live, false),
        XtreamStreamRequestPlan::Serve { virtual_id: 12, plan: XtreamStreamPlan::Proxy }
    );
    assert_eq!(
        plan_xtream_stream_request(false, allowed, true, "12.m3u8", true, live, true),
        XtreamStreamRequestPlan::Serve { virtual_id: 12, plan: XtreamStreamPlan::RedirectHls }
    );
}
