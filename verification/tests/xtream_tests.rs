use m3u_filter::config::ConfigInputOptions;
use m3u_filter::playlist::XtreamCluster;
use m3u_filter::text::replace_all;
use m3u_filter::xtream::{
    get_doc_id_and_field_name, get_non_empty, get_query_path, get_xtream_player_api_stream_url, redirect_query_path,
    separate_number_and_remainder, series_redirect_url, InputUserInfo, XtreamApiStreamContext,
    XtreamApiStreamRequest,
};

fn user_info() -> InputUserInfo {
    InputUserInfo {
        base_url: "http://provider.tv".to_string(),
        username: "user".to_string(),
        password: "pass".to_string(),
    }
}

fn options(use_prefix: bool) -> ConfigInputOptions {
    ConfigInputOptions {
        xtream_skip_live: false,
        xtream_skip_vod: false,
        xtream_skip_series: false,
        xtream_live_stream_without_extension: false,
        xtream_live_stream_use_prefix: use_prefix,
    }
}

#[test]
fn context_names() {
    assert_eq!(XtreamApiStreamContext::Live.to_string(), "live");
    assert_eq!(XtreamApiStreamContext::LiveAlt.to_string(), "live");
    assert_eq!(XtreamApiStreamContext::Movie.to_string(), "movie");
    assert_eq!(XtreamApiStreamContext::Series.to_string(), "series");
    assert_eq!(XtreamApiStreamContext::Timeshift.to_string(), "timeshift");
}

#[test]
fn context_from_any_case() {
    assert_eq!(XtreamApiStreamContext::from_str("LIVE"), Ok(XtreamApiStreamContext::Live));
    assert_eq!(XtreamApiStreamContext::from_str("Movie"), Ok(XtreamApiStreamContext::Movie));
    assert_eq!(XtreamApiStreamContext::from_str("series"), Ok(XtreamApiStreamContext::Series));
    assert_eq!(XtreamApiStreamContext::from_str("TimeShift"), Ok(XtreamApiStreamContext::Timeshift));
    assert_eq!(
        XtreamApiStreamContext::from_str("Radio"),
        Err("Unknown CounterModifier: Radio".to_string())
    );
}

#[test]
fn context_of_cluster() {
    assert_eq!(XtreamApiStreamContext::from_cluster(XtreamCluster::Live), XtreamApiStreamContext::Live);
    assert_eq!(XtreamApiStreamContext::from_cluster(XtreamCluster::Video), XtreamApiStreamContext::Movie);
    assert_eq!(XtreamApiStreamContext::from_cluster(XtreamCluster::Series), XtreamApiStreamContext::Series);
}

#[test]
fn stream_requests() {
    let r = XtreamApiStreamRequest::from(XtreamApiStreamContext::Movie, "u", "p", "12.mkv", "");
    assert_eq!(r.context, XtreamApiStreamContext::Movie);
    assert!(!r.access_token);
    assert_eq!((r.username, r.password, r.stream_id, r.action_path), ("u", "p", "12.mkv", ""));
    let t = XtreamApiStreamRequest::from_access_token(XtreamApiStreamContext::Timeshift, "tok", "3", "60/2024");
    assert_eq!(t.username, "");
    assert!(!t.access_token);
    assert_eq!((t.password, t.stream_id, t.action_path), ("tok", "3", "60/2024"));
}

#[test]
fn player_api_stream_urls() {
    let info = user_info();
    assert_eq!(
        get_xtream_player_api_stream_url(Some(&info), None, XtreamApiStreamContext::Live, "11.ts", ""),
        Some("http://provider.tv/live/user/pass/11.ts".to_string())
    );
    assert_eq!(
        get_xtream_player_api_stream_url(Some(&info), Some(options(false)), XtreamApiStreamContext::LiveAlt, "11.ts", ""),
        Some("http://provider.tv/user/pass/11.ts".to_string())
    );
    assert_eq!(
        get_xtream_player_api_stream_url(Some(&info), Some(options(false)), XtreamApiStreamContext::Movie, "7.mkv", ""),
        Some("http://provider.tv/movie/user/pass/7.mkv".to_string())
    );
    assert_eq!(
        get_xtream_player_api_stream_url(None, None, XtreamApiStreamContext::Series, "1", "http://fallback"),
        Some("http://fallback".to_string())
    );
    assert_eq!(get_xtream_player_api_stream_url(None, None, XtreamApiStreamContext::Series, "1", ""), None);
}

#[test]
fn number_and_remainder() {
    assert_eq!(separate_number_and_remainder("1234.ts"), ("1234".to_string(), Some(".ts".to_string())));
    assert_eq!(separate_number_and_remainder("1234"), ("1234".to_string(), None));
    assert_eq!(separate_number_and_remainder("1234."), ("1234".to_string(), None));
    assert_eq!(separate_number_and_remainder("a.b.mp4"), ("a.b".to_string(), Some(".mp4".to_string())));
}

#[test]
fn doc_id_and_field() {
    assert_eq!(get_doc_id_and_field_name("123_backdrop_path_1"), Some((123, "backdrop_path_1".to_string())));
    assert_eq!(get_doc_id_and_field_name("abc_cover"), None);
    assert_eq!(get_doc_id_and_field_name("123"), None);
    assert_eq!(get_doc_id_and_field_name("5_"), Some((5, String::new())));
}

#[test]
fn first_non_empty() {
    assert_eq!(get_non_empty("a", "b", "c"), "a");
    assert_eq!(get_non_empty("", "b", "c"), "b");
    assert_eq!(get_non_empty("", "", "c"), "c");
    assert_eq!(get_non_empty("", "", ""), "");
}

#[test]
fn query_paths() {
    assert_eq!(get_query_path("", 42, ".ts"), "42.ts");
    assert_eq!(get_query_path("60/2024-01-01:10-00", 42, ".ts"), "60/2024-01-01:10-00/42.ts");
    assert_eq!(get_query_path("", 0, ""), "0");
}

#[test]
fn series_redirect() {
    assert_eq!(
        series_redirect_url("http://p", &Some("u".to_string()), &Some("pw".to_string()), 9, ".mkv"),
        "http://p/series/u/pw/9.mkv"
    );
    assert_eq!(series_redirect_url("http://p", &None, &None, 9, ""), "http://p/series///9");
}

#[test]
fn replace_all_occurrences() {
    assert_eq!(replace_all("aXbXc", "X", "--"), "a--b--c");
    assert_eq!(replace_all("aaa", "aa", "b"), "ba");
    assert_eq!(replace_all("ab", "", "x"), "xaxbx");
    assert_eq!(replace_all("", "", "x"), "x");
    assert_eq!(replace_all("abc", "zz", "y"), "abc");
}

#[test]
fn redirect_query_path_chooses_extension() {
    assert_eq!(redirect_query_path("120/2024-01-01:10-00", 42, Some(".ts"), Some(".mkv")), "120/2024-01-01:10-00/42.ts");
    assert_eq!(redirect_query_path("", 42, None, Some(".mkv")), "42.mkv");
    assert_eq!(redirect_query_path("", 42, None, None), "42");
}
