use m3u_filter::playlist::PlaylistItemType;
use m3u_filter::session_cookie::{
    create_delete_session_cookie, create_session_cookie, create_session_cookie_for_provider,
    create_token_for_provider, format_stream_token, get_stream_info_from_crypted_cookie,
    parse_stream_token, session_cookie_from_header,
};
use m3u_filter::stream_options::{
    get_grace_period_millis, get_header_filter_for_item_type, get_request_range_start_bytes,
    get_stream_options, get_stream_throttle, is_stream_share_enabled, is_throttled_stream,
    BufferStreamOptions, ConfigTargetOptions, HeaderFilter, StreamBufferConfig, StreamConfig,
    STREAM_QUEUE_SIZE,
};
use m3u_filter::user_manager::UserConnectionPermission;

const SESSION_COOKIE_NAME: &str = "m3uflt_session=";

fn reversing_cipher(_secret: &[u8], text: &str) -> Result<String, String> {
    Ok(text.chars().rev().collect())
}

fn failing_cipher(_secret: &[u8], _text: &str) -> Result<String, String> {
    Err("cipher failed".to_string())
}

#[test]
fn test_cookie() {
    let cookie_value = format!("{SESSION_COOKIE_NAME}bbblegum; sehe=dfd; sdfsdf=sdfsd;");
    let cookie = session_cookie_from_header(&cookie_value).expect("Cookie not found");
    assert_eq!(cookie, "bbblegum");
}

#[test]
fn session_cookie_found_after_other_cookies() {
    let header = "a=b;  m3uflt_session= tok123 ; c=d";
    assert_eq!(session_cookie_from_header(header), Some("tok123".to_string()));
}

#[test]
fn session_cookie_missing() {
    assert_eq!(session_cookie_from_header("a=b; c=d"), None);
    assert_eq!(session_cookie_from_header(""), None);
}

#[test]
fn session_cookie_round_trip() {
    let header = create_session_cookie("abc");
    assert_eq!(header, "m3uflt_session=abc; Max-Age=10800; HttpOnly; SameSite=Strict");
    assert_eq!(session_cookie_from_header(&header), Some("abc".to_string()));
}

#[test]
fn delete_cookie_text() {
    assert_eq!(create_delete_session_cookie(), "m3uflt_session=; Max-Age=0; Path=/; HttpOnly");
}

#[test]
fn stream_token_text_and_parse() {
    let text = format_stream_token(42, "tok", "prov", "http://host/a@b");
    assert_eq!(text, "42:tok:prov@http://host/a@b");
    assert_eq!(
        parse_stream_token(&text),
        Some(("tok".to_string(), 42, "prov".to_string(), "http://host/a@b".to_string()))
    );
}

#[test]
fn stream_token_parse_rejects() {
    assert_eq!(parse_stream_token("no at sign"), None);
    assert_eq!(parse_stream_token("1:2@url"), None);
    assert_eq!(parse_stream_token("x:tok:prov@url"), None);
    assert_eq!(parse_stream_token("1:a:b:c@url"), None);
    assert_eq!(
        parse_stream_token("::7::tok:prov:@u"),
        Some(("tok".to_string(), 7, "prov".to_string(), "u".to_string()))
    );
}

#[test]
fn token_for_provider_uses_cipher() {
    let token = create_token_for_provider(b"secret", "tok", 5, "prov", "http://u", reversing_cipher);
    assert_eq!(token, Some("u//:ptth@vorp:kot:5".to_string()));
    assert_eq!(create_token_for_provider(b"secret", "tok", 5, "prov", "http://u", failing_cipher), None);
}

#[test]
fn session_cookie_for_provider_wraps_token() {
    let cookie = create_session_cookie_for_provider(b"k", "t", 1, "p", "u", reversing_cipher);
    assert_eq!(cookie, Some("m3uflt_session=u@p:t:1; Max-Age=10800; HttpOnly; SameSite=Strict".to_string()));
    assert_eq!(create_session_cookie_for_provider(b"k", "t", 1, "p", "u", failing_cipher), None);
}

#[test]
fn crypted_cookie_round_trip() {
    let token = create_token_for_provider(b"k", "grace", 77, "provider_1", "http://p/s.ts", reversing_cipher).unwrap();
    assert_eq!(
        get_stream_info_from_crypted_cookie(b"k", &token, reversing_cipher),
        Some(("grace".to_string(), 77, "provider_1".to_string(), "http://p/s.ts".to_string()))
    );
    assert_eq!(get_stream_info_from_crypted_cookie(b"k", &token, failing_cipher), None);
}

#[test]
fn stream_options_from_settings() {
    let none = get_stream_options(None);
    assert!(!none.stream_retry && !none.buffer_enabled && none.pipe_provider_stream);
    assert_eq!(none.buffer_size, 0);
    let cfg = StreamConfig {
        retry: false,
        forced_retry_interval_secs: 9,
        buffer: Some(StreamBufferConfig { enabled: true, size: 2048 }),
        throttle_kbps: 0,
        grace_period_millis: 300,
    };
    let opts = get_stream_options(Some(cfg));
    assert!(opts.buffer_enabled);
    assert_eq!(opts.buffer_size, 2048);
    assert_eq!(opts.stream_force_retry_secs, 9);
    assert!(!opts.pipe_provider_stream);
    let retry = StreamConfig { retry: true, buffer: None, ..cfg };
    let opts = get_stream_options(Some(retry));
    assert!(opts.stream_retry && !opts.buffer_enabled && !opts.pipe_provider_stream);
    let plain = StreamConfig { retry: false, buffer: Some(StreamBufferConfig { enabled: false, size: 5 }), ..cfg };
    let opts = get_stream_options(Some(plain));
    assert!(opts.pipe_provider_stream);
    assert_eq!(opts.buffer_size, 5);
}

#[test]
fn throttle_settings() {
    assert_eq!(get_stream_throttle(None), 0);
    let cfg = StreamConfig { retry: false, forced_retry_interval_secs: 0, buffer: None, throttle_kbps: 512, grace_period_millis: 0 };
    assert_eq!(get_stream_throttle(Some(cfg)), 512);
    assert!(is_throttled_stream(PlaylistItemType::Video, 512));
    assert!(is_throttled_stream(PlaylistItemType::SeriesInfo, 1));
    assert!(!is_throttled_stream(PlaylistItemType::Live, 512));
    assert!(!is_throttled_stream(PlaylistItemType::Series, 0));
}

#[test]
fn share_only_live_with_option() {
    let shared = Some(ConfigTargetOptions { ignore_logo: false, share_live_streams: true, remove_duplicates: false });
    let unshared = Some(ConfigTargetOptions { ignore_logo: false, share_live_streams: false, remove_duplicates: false });
    assert!(is_stream_share_enabled(PlaylistItemType::Live, shared));
    assert!(!is_stream_share_enabled(PlaylistItemType::LiveHls, shared));
    assert!(!is_stream_share_enabled(PlaylistItemType::Live, unshared));
    assert!(!is_stream_share_enabled(PlaylistItemType::Live, None));
}

#[test]
fn grace_period_choice() {
    assert_eq!(get_grace_period_millis(UserConnectionPermission::Allowed, true, 300), 300);
    assert_eq!(get_grace_period_millis(UserConnectionPermission::GracePeriod, false, 300), 300);
    assert_eq!(get_grace_period_millis(UserConnectionPermission::Allowed, false, 300), 0);
    assert_eq!(get_grace_period_millis(UserConnectionPermission::GracePeriod, true, 0), 0);
}

#[test]
fn buffer_stream_sizes() {
    let sized = BufferStreamOptions::new(PlaylistItemType::Live, true, true, 64);
    assert_eq!(sized.get_stream_buffer_size(), 64);
    assert_eq!(sized.client_queue_size(), 64);
    assert!(sized.is_reconnect_enabled());
    let unsized_opts = BufferStreamOptions::new(PlaylistItemType::Video, false, true, 0);
    assert_eq!(unsized_opts.get_stream_buffer_size(), STREAM_QUEUE_SIZE);
    assert_eq!(unsized_opts.get_stream_buffer_size(), 1024);
    let unbuffered = BufferStreamOptions::new(PlaylistItemType::Video, false, false, 64);
    assert_eq!(unbuffered.client_queue_size(), 1);
    assert!(!unbuffered.is_buffer_enabled());
}

#[test]
fn header_filters() {
    assert_eq!(get_header_filter_for_item_type(PlaylistItemType::Live), Some(HeaderFilter::WithoutRange));
    assert_eq!(get_header_filter_for_item_type(PlaylistItemType::LiveDash), Some(HeaderFilter::WithoutRange));
    assert_eq!(get_header_filter_for_item_type(PlaylistItemType::Video), None);
    let f = HeaderFilter::WithoutRange;
    assert!(!f.accepts("range"));
    assert!(!f.accepts("accept-ranges"));
    assert!(!f.accepts("content-range"));
    assert!(f.accepts("user-agent"));
    assert!(f.accepts("Range"));
}

#[test]
fn range_start_bytes() {
    assert_eq!(get_request_range_start_bytes(b"bytes=1234-5566/2345345"), Some(1234));
    assert_eq!(get_request_range_start_bytes(b"bytes=0-"), Some(0));
    assert_eq!(get_request_range_start_bytes(b"bytes=-500"), None);
    assert_eq!(get_request_range_start_bytes(b"bytes=12"), None);
    assert_eq!(get_request_range_start_bytes(b"items=1-2"), None);
    assert_eq!(get_request_range_start_bytes(b"bytes=99999999999999999999999-"), None);
}

use m3u_filter::stream_options::range_header_value;

#[test]
fn range_header_round_trip() {
    assert_eq!(range_header_value(0), "bytes=0-");
    assert_eq!(range_header_value(123456), "bytes=123456-");
    for n in [0usize, 7, 4096, 987654321] {
        let header = range_header_value(n);
        assert_eq!(get_request_range_start_bytes(header.as_bytes()), Some(n));
    }
}
